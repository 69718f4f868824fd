pub mod lexer;
pub mod token_set;
pub mod parser;
pub mod grammar;
pub mod lua;
pub mod tree;

pub use parser::{ParseError, SyntaxErrorKind};
pub use tree::{parse, parse_rule, Rule, Tree};
