pub mod common;
pub mod def;
pub mod ide;
pub mod lexer;
pub mod lsp;
pub mod parsing;
pub mod vfs;
pub mod ty;
