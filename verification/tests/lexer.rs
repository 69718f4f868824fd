use lopa::lexer::{self as basic, Syntax as BasicSyntax};
use lopa::parsing::lexer::{lex, LexToken, Syntax};
use lopa::parsing::token_set::TokenSet;

fn kinds(input: &str) -> Vec<Syntax> {
    lex(input).into_iter().map(|t| t.token).filter(|t| *t != Syntax::WHITESPACE).collect()
}

fn basic_kinds(input: &str) -> Vec<BasicSyntax> {
    basic::lex(input)
        .into_iter()
        .map(|t| t.kind)
        .filter(|t| *t != BasicSyntax::Whitespaces)
        .collect()
}

fn spans(input: &str) -> Vec<(Syntax, &str)> {
    lex(input).into_iter().map(|t: LexToken| (t.token, &input[t.range])).collect()
}

#[test]
fn simple_fn() {
    let lex = basic_kinds("fn main() { let x = 5; }");
    assert_eq!(
        lex.as_slice(),
        &[
            BasicSyntax::Fn_KW,
            BasicSyntax::Ident,
            BasicSyntax::LeftParen,
            BasicSyntax::RightParen,
            BasicSyntax::LeftBrace,
            BasicSyntax::Let_KW,
            BasicSyntax::Ident,
            BasicSyntax::Eq,
            BasicSyntax::Int,
            BasicSyntax::Semi,
            BasicSyntax::RightBrace,
        ]
    );
}

#[test]
fn lexer_simple_fn() {
    let lex = kinds("fn main() { let x = 5; }");
    assert_eq!(
        lex.as_slice(),
        &[
            Syntax::FN_KW,
            Syntax::IDENT,
            Syntax::L_PAREN,
            Syntax::R_PAREN,
            Syntax::L_BRACE,
            Syntax::LET_KW,
            Syntax::IDENT,
            Syntax::EQ,
            Syntax::INT,
            Syntax::SEMI,
            Syntax::R_BRACE,
        ]
    );
}

#[test]
fn comment() {
    let lex = kinds("--hello there\nlet x = 1");
    assert_eq!(
        lex.as_slice(),
        &[Syntax::COMMENT, Syntax::LET_KW, Syntax::IDENT, Syntax::EQ, Syntax::INT]
    );
}

#[test]
fn token_set_works_for_tokens() {
    let ts = TokenSet::new(&[Syntax::EOF]);
    assert!(ts.contains(Syntax::EOF));
}

#[test]
fn token_set_union_and_absent_kinds() {
    let a = TokenSet::new(&[Syntax::IDENT, Syntax::FN_KW]);
    let b = TokenSet::new(&[Syntax::ERROR]);
    let u = a.union(b);
    assert!(u.contains(Syntax::IDENT));
    assert!(u.contains(Syntax::FN_KW));
    assert!(u.contains(Syntax::ERROR));
    assert!(!u.contains(Syntax::EOF));
    assert!(!a.contains(Syntax::ERROR));
    assert!(!TokenSet::new(&[]).contains(Syntax::WHITESPACE));
}

#[test]
fn longest_match_picks_the_longer_token() {
    assert_eq!(
        spans("letter let _ _x 1_000 10.10 1.abs 1|2 12ab"),
        vec![
            (Syntax::IDENT, "letter"),
            (Syntax::WHITESPACE, " "),
            (Syntax::LET_KW, "let"),
            (Syntax::WHITESPACE, " "),
            (Syntax::WILDCARD, "_"),
            (Syntax::WHITESPACE, " "),
            (Syntax::IDENT, "_x"),
            (Syntax::WHITESPACE, " "),
            (Syntax::INT, "1_000"),
            (Syntax::WHITESPACE, " "),
            (Syntax::FLOAT, "10.10"),
            (Syntax::WHITESPACE, " "),
            (Syntax::INT, "1"),
            (Syntax::DOT, "."),
            (Syntax::IDENT, "abs"),
            (Syntax::WHITESPACE, " "),
            (Syntax::INT, "1|2"),
            (Syntax::WHITESPACE, " "),
            (Syntax::IDENT, "12ab"),
        ]
    );
}

#[test]
fn symbols_and_operators() {
    assert_eq!(
        kinds("... .. . //= // /= / -> -= - == => = != !is ! <= < >= > |= | ~= ~ += *= %= # ^ @ ? :"),
        vec![
            Syntax::DOT3,
            Syntax::DOT2,
            Syntax::DOT,
            Syntax::SLASH2_EQ,
            Syntax::SLASH2,
            Syntax::SLASH_EQ,
            Syntax::SLASH,
            Syntax::ARROW,
            Syntax::MINUS_EQ,
            Syntax::MINUS,
            Syntax::EQ2,
            Syntax::FAT_ARROW,
            Syntax::EQ,
            Syntax::NOT_EQ,
            Syntax::IS_NOT_KW,
            Syntax::BANG,
            Syntax::LESS_EQ,
            Syntax::LT,
            Syntax::GREATER_EQ,
            Syntax::GT,
            Syntax::BAR_EQ,
            Syntax::BAR,
            Syntax::TILDE_EQ,
            Syntax::TILDE,
            Syntax::PLUS_EQ,
            Syntax::STAR_EQ,
            Syntax::PERCENT_EQ,
            Syntax::HASH,
            Syntax::CARET,
            Syntax::AT,
            Syntax::MARK,
            Syntax::COLON,
        ]
    );
}

#[test]
fn strings_and_errors() {
    assert_eq!(
        spans("\"a b\" 'c' [[ x ]] [1]"),
        vec![
            (Syntax::STRING, "\"a b\""),
            (Syntax::WHITESPACE, " "),
            (Syntax::SINGLE_STRING, "'c'"),
            (Syntax::WHITESPACE, " "),
            (Syntax::BRACKET_STRING, "[[ x ]]"),
            (Syntax::WHITESPACE, " "),
            (Syntax::L_BRACKET, "["),
            (Syntax::INT, "1"),
            (Syntax::R_BRACKET, "]"),
        ]
    );
    assert_eq!(spans("\"open"), vec![(Syntax::ERROR, "\""), (Syntax::IDENT, "open")]);
    assert_eq!(spans("[[x"), vec![(Syntax::ERROR, "[["), (Syntax::IDENT, "x")]);
    assert_eq!(spans("$é\r"), vec![(Syntax::ERROR, "$"), (Syntax::ERROR, "é"), (Syntax::ERROR, "\r")]);
}

#[test]
fn tokens_tile_the_input() {
    let input = "fn f(a: int) -> int { -- note\r\n a + 1.5 }";
    let tokens = lex(input);
    assert_eq!(tokens[0].range.start, 0);
    for w in tokens.windows(2) {
        assert_eq!(w[0].range.end, w[1].range.start);
        assert!(w[0].range.start < w[0].range.end);
    }
    assert_eq!(tokens.last().unwrap().range.end, input.len());
    assert!(lex("").is_empty());
}

#[test]
fn basic_lexer_handles_unicode_space_and_errors() {
    let tokens = basic::lex("x\u{a0}\u{3000}y -> 3.25 $");
    let k: Vec<_> = tokens.iter().map(|t| t.kind).collect();
    assert_eq!(
        k,
        vec![
            BasicSyntax::Ident,
            BasicSyntax::Whitespaces,
            BasicSyntax::Ident,
            BasicSyntax::Whitespaces,
            BasicSyntax::Arrow,
            BasicSyntax::Whitespaces,
            BasicSyntax::Float,
            BasicSyntax::Whitespaces,
            BasicSyntax::Error,
        ]
    );
    assert_eq!(tokens[1].range, 1..6);
}

#[test]
fn syntax_classes_and_binding_powers() {
    assert!(Syntax::COMMENT.is_whitespace());
    assert!(!Syntax::IDENT.is_whitespace());
    assert!(Syntax::FN_KW.is_keyword() && Syntax::LET_KW.is_keyword());
    assert!(!Syntax::EOF.is_keyword());
    assert!(Syntax::L_PAREN.is_symbol() && Syntax::ARROW.is_symbol());
    assert!(Syntax::USE_ITEM.is_item() && !Syntax::PATH.is_item());
    assert!(Syntax::FIELD.is_elem() && Syntax::FN_ITEM.is_elem() && !Syntax::STRUCT_ITEM.is_elem());
    assert!(Syntax::LET_STMT.is_stmt() && Syntax::EXPR_STMT.is_stmt());
    assert!(Syntax::IS_NOT_EXPR.is_expr() && !Syntax::NAME_PAT.is_expr());
    assert!(Syntax::USE_TREE_LIST.is_use());
    assert!(Syntax::WILDCARD_PAT.is_pattern());
    assert!(Syntax::DYN_TYPE.is_type_expr() && Syntax::NILABLE_TYPE.is_type_expr());
    assert!(Syntax::LUA_REPEAT_STMT.is_lua_stmt());
    assert!(Syntax::LUA_FUNCTION_EXPR.is_lua_expr());
    assert!(Syntax::LUA_ELEM_EXPR.is_lua_elem());
    assert_eq!(Syntax::BANG.prefix_bp(), Some(15));
    assert_eq!(Syntax::MINUS.prefix_bp(), Some(16));
    assert_eq!(Syntax::PLUS.prefix_bp(), None);
    assert_eq!(Syntax::EQ.infix_bp(), Some((1, 2)));
    assert_eq!(Syntax::SLASH2.infix_bp(), Some((13, 14)));
    assert_eq!(Syntax::GREATER_EQ.infix_bp(), Some((9, 10)));
    assert_eq!(Syntax::BANG.infix_bp(), None);
    assert_eq!(Syntax::L_PAREN.as_str(), "(");
    assert_eq!(Syntax::IDENT.as_str(), "identifier");
    assert_eq!(Syntax::MODULE.as_str(), "MODULE");
    assert_eq!(Syntax::FN_KW.code(), 84);
    assert_eq!(BasicSyntax::BinaryExpr.as_str(), "BinaryExpr");
}
