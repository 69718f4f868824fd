use lopa::ide::format::Context;
use lopa::lsp::convert::{from_range, to_range};
use lopa::vfs::FileContent;

#[test]
fn context_text_and_spaces() {
    let mut c = Context::new();
    c.token_space("fn");
    c.text("main");
    c.token("(");
    c.token_opt(None);
    c.token_opt(Some(")"));
    c.space();
    c.text_opt(Some("x"));
    c.text_space_opt(None);
    c.text_space_opt(Some("y"));
    c.token_space_opt(Some("z"));
    c.text_space("w");
    assert_eq!(c.output, "fn main() xy z w ");
}

#[test]
fn context_indentation() {
    let mut c = Context::new();
    c.token("{");
    c.acc_ident();
    c.new_line();
    c.text("a");
    c.acc_ident();
    c.new_line();
    c.text("b");
    c.dec_ident();
    c.dec_ident();
    c.dec_ident();
    assert_eq!(c.ident_level, 0);
    c.new_line();
    c.token("}");
    assert_eq!(c.output, "{\n  a\n    b\n}");
}

#[test]
fn editor_ranges() {
    let c = FileContent::new(String::from("fn a\n  b\nc"));
    assert_eq!(to_range(&c, 0..2), ((0, 0), (0, 2)));
    assert_eq!(to_range(&c, 7..10), ((1, 2), (2, 1)));
    assert_eq!(from_range(&c, ((1, 2), (2, 1))), 7..10);
    for start in 0..11usize {
        let r = to_range(&c, start..10);
        assert_eq!(from_range(&c, r), start..10);
    }
}
