use lopa::ide::FileContent as IdeContent;
use lopa::lsp::base::FileContent as LspContent;
use lopa::vfs::FileContent;

#[test]
fn line_col_round_trip() {
    let c = FileContent::new(String::from("abc\ndef\n\nxy"));
    assert_eq!(c.len(), 11);
    assert!(!c.is_empty());
    assert_eq!(c.line_col_by_pos(0), (0, 0));
    assert_eq!(c.line_col_by_pos(3), (0, 3));
    assert_eq!(c.line_col_by_pos(4), (1, 0));
    assert_eq!(c.line_col_by_pos(9), (3, 0));
    assert_eq!(c.line_col_by_pos(10), (3, 1));
    for p in 0..12u32 {
        let (l, col) = c.line_col_by_pos(p);
        assert_eq!(c.pos_by_line_col(l, col), p);
    }
    assert_eq!(c.pos_by_line_col(9, 5), 5);
    assert_eq!(c.as_str(), "abc\ndef\n\nxy");
    assert_eq!(c.content(), "abc\ndef\n\nxy");
}

#[test]
fn carriage_return_skips_the_next_byte() {
    let c = FileContent::new(String::from("a\r\nb\rxc"));
    assert_eq!(c.line_col_by_pos(3), (1, 0));
    assert_eq!(c.line_col_by_pos(6), (2, 0));
    assert_eq!(c.line_col_by_pos(5), (1, 2));
    assert_eq!(c.pos_by_line_col(2, 1), 7);
    assert!(FileContent::new(String::new()).is_empty());
}

#[test]
fn pos_by_line_col_wraps_into_u32() {
    let c = FileContent::new(String::from("a\nb"));
    assert_eq!(c.pos_by_line_col(1, u32::MAX), 1);
}

#[test]
fn ide_content_edits_and_recomputes() {
    let mut c = IdeContent::new(String::from("ab\ncd"));
    assert_eq!(c.line_col_by_pos(4), (1, 1));
    c.insert(2, "x\ny");
    assert_eq!(c.as_str(), "abx\ny\ncd");
    assert_eq!(c.line_col_by_pos(7), (2, 1));
    c.delete(1..3);
    assert_eq!(c.as_str(), "a\ny\ncd");
    assert_eq!(c.pos_by_line_col(2, 0), 4);
    c.replace(0..1, "zz\n");
    assert_eq!(c.as_str(), "zz\n\ny\ncd");
    assert_eq!(c.line_col_by_pos(4), (2, 0));
    assert_eq!(c.len(), 8);
    assert!(!c.is_empty());
}

#[test]
fn lsp_content_edits_and_recomputes() {
    let mut c = LspContent::new(String::from("héllo\nworld"));
    assert_eq!(c.line_col_by_pos(7), (1, 0));
    c.insert(7, "\n");
    assert_eq!(c.line_col_by_pos(8), (2, 0));
    assert_eq!(c.pos_by_line_col(2, 3), 11);
    c.replace(0..3, "H");
    assert_eq!(c.as_str(), "Hllo\n\nworld");
    c.delete(0..5);
    assert_eq!(c.as_str(), "\nworld");
    assert_eq!(c.pos_by_line_col(7, 2), 2);
    assert_eq!(c.len(), 6);
}

#[test]
fn replace_is_delete_then_insert() {
    let mut a = IdeContent::new(String::from("héllo wörld"));
    let mut b = IdeContent::new(String::from("héllo wörld"));
    a.replace(1..3, "ey");
    b.delete(1..3);
    b.insert(1, "ey");
    assert_eq!(a.as_str(), "heyllo wörld");
    assert_eq!(a.as_str(), b.as_str());
    let mut c = LspContent::new(String::from("añb"));
    let mut d = LspContent::new(String::from("añb"));
    c.replace(1..3, "ñ\n");
    d.delete(1..3);
    d.insert(1, "ñ\n");
    assert_eq!(c.as_str(), d.as_str());
}

#[test]
fn insert_then_delete_restores() {
    let mut a = LspContent::new(String::from("ab\ncd"));
    a.insert(3, "éé");
    assert_eq!(a.as_str(), "ab\néécd");
    a.delete(3..3 + "éé".len());
    assert_eq!(a.as_str(), "ab\ncd");
    let mut b = IdeContent::new(String::from("x"));
    b.insert(1, "yz");
    b.delete(1..3);
    assert_eq!(b.as_str(), "x");
}

#[test]
fn lines_start_after_each_line_feed() {
    let c = FileContent::new(String::from("a\nbc\n\nd"));
    assert_eq!(c.pos_by_line_col(0, 0), 0);
    assert_eq!(c.pos_by_line_col(1, 0), 2);
    assert_eq!(c.pos_by_line_col(2, 0), 5);
    assert_eq!(c.pos_by_line_col(3, 0), 6);
    assert_eq!(c.line_col_by_pos(6), (3, 0));
}
