use lopa::parsing::lexer::Syntax;
use lopa::parsing::{parse, ParseError, SyntaxErrorKind};

fn kinds(input: &str) -> Vec<u16> {
    parse(input).0.nodes().into_iter().map(|n| n.0).collect()
}

fn codes(ks: &[Syntax]) -> Vec<u16> {
    ks.iter().map(|k| k.code()).collect()
}

fn errors(input: &str) -> Vec<(SyntaxErrorKind, usize, usize)> {
    parse(input).1.into_iter().map(|e| (e.kind, e.range.start, e.range.end)).collect()
}

fn contains_run(hay: &[u16], needle: &[u16]) -> bool {
    hay.windows(needle.len()).any(|w| w == needle)
}

#[test]
fn parse_error_new_keeps_fields() {
    let e = ParseError::new(3..7, SyntaxErrorKind::ExpectedItem);
    assert_eq!(e.range, 3..7);
    assert_eq!(e.kind, SyntaxErrorKind::ExpectedItem);
}

#[test]
fn syntax_error_messages() {
    assert_eq!(SyntaxErrorKind::ExpectedToken(Syntax::IDENT).to_string(), "expected identifier");
    assert_eq!(SyntaxErrorKind::ExpectedToken(Syntax::L_BRACE).to_string(), "expected {");
    assert_eq!(SyntaxErrorKind::ExpectedToken(Syntax::FN_KW).to_string(), "expected fn");
    assert_eq!(SyntaxErrorKind::ExpectedItem.to_string(), "expected item");
    assert_eq!(SyntaxErrorKind::ExpectedUseDeclaration.to_string(), "expected use declaration");
    assert_eq!(SyntaxErrorKind::Other("expected end".to_string()).to_string(), "expected end");
}

#[test]
fn parse_empty_input_is_an_empty_module() {
    assert_eq!(kinds(""), codes(&[Syntax::MODULE]));
    assert!(errors("").is_empty());
}

#[test]
fn parse_simple_fn() {
    assert_eq!(
        kinds("fn some_func(){}"),
        codes(&[
            Syntax::MODULE,
            Syntax::FN_ITEM,
            Syntax::FN_KW,
            Syntax::WHITESPACE,
            Syntax::NAME,
            Syntax::IDENT,
            Syntax::PARAM_LIST,
            Syntax::L_PAREN,
            Syntax::R_PAREN,
            Syntax::BLOCK_EXPR,
            Syntax::L_BRACE,
            Syntax::R_BRACE,
        ])
    );
    assert!(errors("fn some_func(){}").is_empty());
}

#[test]
fn parse_struct_and_impl() {
    let src = "struct X {
        }
        impl X {
              fn test() {}
        }";
    assert!(errors(src).is_empty());
    let ks = kinds(src);
    assert!(contains_run(&ks, &codes(&[Syntax::STRUCT_ITEM, Syntax::STRUCT_KW])));
    assert!(ks.contains(&Syntax::IMPL_ITEM.code()));
}

#[test]
fn parse_truncated_fn_reports_each_missing_token() {
    assert_eq!(
        errors("fn"),
        vec![
            (SyntaxErrorKind::ExpectedToken(Syntax::IDENT), 1, 1),
            (SyntaxErrorKind::ExpectedToken(Syntax::L_PAREN), 1, 1),
            (SyntaxErrorKind::ExpectedToken(Syntax::R_PAREN), 1, 1),
            (SyntaxErrorKind::ExpectedToken(Syntax::L_BRACE), 1, 1),
        ]
    );
}

#[test]
fn parse_missing_pattern() {
    assert_eq!(errors("fn f() { let = 1; }"), vec![(SyntaxErrorKind::ExpectedPattern, 13, 14)]);
}

#[test]
fn parse_literal_type_nests_path() {
    let ks = kinds("fn f(a: int) {}");
    assert!(contains_run(
        &ks,
        &codes(&[
            Syntax::LIT_TYPE,
            Syntax::LIT_TYPE_INT,
            Syntax::PATH_TYPE,
            Syntax::PATH,
            Syntax::PATH_SEGMENT,
            Syntax::IDENT,
        ])
    ));
}

#[test]
fn parse_nilable_type_wraps_literal() {
    let ks = kinds("fn f(a: string?) {}");
    assert!(contains_run(
        &ks,
        &codes(&[
            Syntax::NILABLE_TYPE,
            Syntax::LIT_TYPE,
            Syntax::LIT_TYPE_STRING,
            Syntax::PATH_TYPE,
            Syntax::PATH,
            Syntax::PATH_SEGMENT,
            Syntax::IDENT,
            Syntax::MARK,
        ])
    ));
    assert!(errors("fn f(a: string?) {}").is_empty());
}

#[test]
fn parse_binary_precedence() {
    let src = "fn f() { 1 + 2 * 3; }";
    assert!(errors(src).is_empty());
    let ks = kinds(src);
    assert_eq!(ks.iter().filter(|k| **k == Syntax::BINARY_EXPR.code()).count(), 2);
    assert!(contains_run(&ks, &codes(&[Syntax::EXPR_STMT, Syntax::BINARY_EXPR, Syntax::LIT_EXPR, Syntax::INT])));
}

#[test]
fn parse_generic_call() {
    let src = "fn f() { a<b>(c); }";
    assert!(errors(src).is_empty());
    let ks = kinds(src);
    assert!(contains_run(&ks, &codes(&[Syntax::CALL_EXPR, Syntax::PATH_EXPR, Syntax::PATH, Syntax::PATH_SEGMENT])));
    assert!(ks.contains(&Syntax::GENERIC_ARGUMENTS.code()));
}

#[test]
fn parse_lua_block() {
    let src = "fn f() { lua { local x = 1; } }";
    assert!(errors(src).is_empty());
    let ks = kinds(src);
    assert!(ks.contains(&Syntax::LUA_CHUNK_EXPR.code()));
    assert!(ks.contains(&Syntax::LUA_LOCAL_STMT.code()));
    assert!(ks.contains(&Syntax::LUA_LIT_EXPR.code()));
}

#[test]
fn parse_lua_expect_ident_error() {
    let src = "fn f() { lua { while x y end; } }";
    let errs = errors(src);
    assert!(errs.contains(&(SyntaxErrorKind::Other("expected do".to_string()), 25, 28)));
}

#[test]
fn parse_tree_covers_tokens_once() {
    let src = "fn a() {} fn b() {}";
    let nodes = parse(src).0.nodes();
    let idents = nodes.iter().filter(|n| n.0 == Syntax::IDENT.code()).count();
    assert_eq!(idents, 2);
}

#[test]
fn parse_module_holds_leading_whitespace() {
    assert_eq!(
        kinds("  fn a() {}  "),
        codes(&[
            Syntax::MODULE,
            Syntax::WHITESPACE,
            Syntax::FN_ITEM,
            Syntax::FN_KW,
            Syntax::WHITESPACE,
            Syntax::NAME,
            Syntax::IDENT,
            Syntax::PARAM_LIST,
            Syntax::L_PAREN,
            Syntax::R_PAREN,
            Syntax::WHITESPACE,
            Syntax::BLOCK_EXPR,
            Syntax::L_BRACE,
            Syntax::R_BRACE,
        ])
    );
}

#[test]
fn parse_tree_clone_and_equality() {
    let (tree, _) = parse("fn a(b: int) { b }");
    let copy = tree.clone();
    assert_eq!(copy.nodes(), tree.nodes());
    assert!(copy == tree);
    let (other, _) = parse("fn a(b: float) { b }");
    assert!(other != tree);
}

#[test]
fn parse_tree_spans_follow_the_bytes() {
    let nodes = parse("fn a() {}").0.nodes();
    let expect = [
        (Syntax::MODULE, 0, 9),
        (Syntax::FN_ITEM, 0, 9),
        (Syntax::FN_KW, 0, 2),
        (Syntax::WHITESPACE, 2, 3),
        (Syntax::NAME, 3, 4),
        (Syntax::IDENT, 3, 4),
        (Syntax::PARAM_LIST, 4, 6),
        (Syntax::L_PAREN, 4, 5),
        (Syntax::R_PAREN, 5, 6),
        (Syntax::WHITESPACE, 6, 7),
        (Syntax::BLOCK_EXPR, 7, 9),
        (Syntax::L_BRACE, 7, 8),
        (Syntax::R_BRACE, 8, 9),
    ];
    let want: Vec<(u16, usize, usize)> = expect.iter().map(|(k, s, e)| (k.code(), *s, *e)).collect();
    assert_eq!(nodes, want);
}

#[test]
fn a_token_that_begins_no_item_is_an_error_between_items() {
    let src = "fn a() {} 1 struct S {}";
    let ks: Vec<u16> = kinds(src)
        .into_iter()
        .filter(|&k| k != Syntax::WHITESPACE.code())
        .collect();
    assert_eq!(ks[0], Syntax::MODULE.code());
    assert_eq!(ks[1], Syntax::FN_ITEM.code());
    let err_at = ks.iter().position(|&k| k == Syntax::ERROR.code()).unwrap();
    let struct_at = ks.iter().position(|&k| k == Syntax::STRUCT_ITEM.code()).unwrap();
    assert!(err_at < struct_at);
    let errs = errors(src);
    assert_eq!(errs.len(), 1);
    assert!(matches!(errs[0].0, SyntaxErrorKind::ExpectedItem));
}
