//! The tokens of the first version of the language, and their lexer.
use crate::parsing::lexer::{
    ascii_bytes, byte_at, is_digit, lemma_run_end_bounds, run_end, scan, utf8_len, utf8_len_exec, ByteClass,
};
use std::ops::Range;
use vstd::prelude::*;
use vstd::string::StringSliceAdditionalSpecFns;

verus! {

/// The kinds of tokens and nodes of the first version of the language.
#[allow(non_camel_case_types)]
#[derive(Debug, PartialEq, Eq, Clone, Copy, Hash, Structural)]
pub enum Syntax {
    LeftParen,
    RightParen,
    LeftBracket,
    RightBracket,
    LeftBrace,
    RightBrace,
    Bar,
    Eq,
    Comma,
    Dot,
    Plus,
    Minus,
    Slash,
    Star,
    Semi,
    Colon,
    Let_KW,
    True_KW,
    False_KW,
    Fn_KW,
    Arrow,
    Ident,
    Int,
    Float,
    Whitespaces,
    Error,
    EndOfFile,
    File,
    FnItem,
    Arg,
    ArgList,
    ParamList,
    Param,
    ReturnType,
    LetStmt,
    ExprStmt,
    TypeExpr,
    LiteralExpr,
    ParenExpr,
    AssignExpr,
    CallExpr,
    IndexExpr,
    ReturnExpr,
    BlockExpr,
    BinaryExpr,
}

impl Syntax {
    /// The number of the kind: its position in the declaration.
    pub open spec fn spec_code(self) -> u16 {
        match self {
            Syntax::LeftParen => 0,
            Syntax::RightParen => 1,
            Syntax::LeftBracket => 2,
            Syntax::RightBracket => 3,
            Syntax::LeftBrace => 4,
            Syntax::RightBrace => 5,
            Syntax::Bar => 6,
            Syntax::Eq => 7,
            Syntax::Comma => 8,
            Syntax::Dot => 9,
            Syntax::Plus => 10,
            Syntax::Minus => 11,
            Syntax::Slash => 12,
            Syntax::Star => 13,
            Syntax::Semi => 14,
            Syntax::Colon => 15,
            Syntax::Let_KW => 16,
            Syntax::True_KW => 17,
            Syntax::False_KW => 18,
            Syntax::Fn_KW => 19,
            Syntax::Arrow => 20,
            Syntax::Ident => 21,
            Syntax::Int => 22,
            Syntax::Float => 23,
            Syntax::Whitespaces => 24,
            Syntax::Error => 25,
            Syntax::EndOfFile => 26,
            Syntax::File => 27,
            Syntax::FnItem => 28,
            Syntax::Arg => 29,
            Syntax::ArgList => 30,
            Syntax::ParamList => 31,
            Syntax::Param => 32,
            Syntax::ReturnType => 33,
            Syntax::LetStmt => 34,
            Syntax::ExprStmt => 35,
            Syntax::TypeExpr => 36,
            Syntax::LiteralExpr => 37,
            Syntax::ParenExpr => 38,
            Syntax::AssignExpr => 39,
            Syntax::CallExpr => 40,
            Syntax::IndexExpr => 41,
            Syntax::ReturnExpr => 42,
            Syntax::BlockExpr => 43,
            Syntax::BinaryExpr => 44,
        }
    }

    /// The number of the kind, as `as u16` gives it.
    pub fn code(self) -> (c: u16)
        ensures
            c == self.spec_code(),
    {
        match self {
            Syntax::LeftParen => 0,
            Syntax::RightParen => 1,
            Syntax::LeftBracket => 2,
            Syntax::RightBracket => 3,
            Syntax::LeftBrace => 4,
            Syntax::RightBrace => 5,
            Syntax::Bar => 6,
            Syntax::Eq => 7,
            Syntax::Comma => 8,
            Syntax::Dot => 9,
            Syntax::Plus => 10,
            Syntax::Minus => 11,
            Syntax::Slash => 12,
            Syntax::Star => 13,
            Syntax::Semi => 14,
            Syntax::Colon => 15,
            Syntax::Let_KW => 16,
            Syntax::True_KW => 17,
            Syntax::False_KW => 18,
            Syntax::Fn_KW => 19,
            Syntax::Arrow => 20,
            Syntax::Ident => 21,
            Syntax::Int => 22,
            Syntax::Float => 23,
            Syntax::Whitespaces => 24,
            Syntax::Error => 25,
            Syntax::EndOfFile => 26,
            Syntax::File => 27,
            Syntax::FnItem => 28,
            Syntax::Arg => 29,
            Syntax::ArgList => 30,
            Syntax::ParamList => 31,
            Syntax::Param => 32,
            Syntax::ReturnType => 33,
            Syntax::LetStmt => 34,
            Syntax::ExprStmt => 35,
            Syntax::TypeExpr => 36,
            Syntax::LiteralExpr => 37,
            Syntax::ParenExpr => 38,
            Syntax::AssignExpr => 39,
            Syntax::CallExpr => 40,
            Syntax::IndexExpr => 41,
            Syntax::ReturnExpr => 42,
            Syntax::BlockExpr => 43,
            Syntax::BinaryExpr => 44,
        }
    }

    /// The name of the kind, which is what `Display` shows.
    pub open spec fn spec_text(self) -> Seq<char> {
        match self {
            Syntax::LeftParen => "LeftParen"@,
            Syntax::RightParen => "RightParen"@,
            Syntax::LeftBracket => "LeftBracket"@,
            Syntax::RightBracket => "RightBracket"@,
            Syntax::LeftBrace => "LeftBrace"@,
            Syntax::RightBrace => "RightBrace"@,
            Syntax::Bar => "Bar"@,
            Syntax::Eq => "Eq"@,
            Syntax::Comma => "Comma"@,
            Syntax::Dot => "Dot"@,
            Syntax::Plus => "Plus"@,
            Syntax::Minus => "Minus"@,
            Syntax::Slash => "Slash"@,
            Syntax::Star => "Star"@,
            Syntax::Semi => "Semi"@,
            Syntax::Colon => "Colon"@,
            Syntax::Let_KW => "Let_KW"@,
            Syntax::True_KW => "True_KW"@,
            Syntax::False_KW => "False_KW"@,
            Syntax::Fn_KW => "Fn_KW"@,
            Syntax::Arrow => "Arrow"@,
            Syntax::Ident => "Ident"@,
            Syntax::Int => "Int"@,
            Syntax::Float => "Float"@,
            Syntax::Whitespaces => "Whitespaces"@,
            Syntax::Error => "Error"@,
            Syntax::EndOfFile => "EndOfFile"@,
            Syntax::File => "File"@,
            Syntax::FnItem => "FnItem"@,
            Syntax::Arg => "Arg"@,
            Syntax::ArgList => "ArgList"@,
            Syntax::ParamList => "ParamList"@,
            Syntax::Param => "Param"@,
            Syntax::ReturnType => "ReturnType"@,
            Syntax::LetStmt => "LetStmt"@,
            Syntax::ExprStmt => "ExprStmt"@,
            Syntax::TypeExpr => "TypeExpr"@,
            Syntax::LiteralExpr => "LiteralExpr"@,
            Syntax::ParenExpr => "ParenExpr"@,
            Syntax::AssignExpr => "AssignExpr"@,
            Syntax::CallExpr => "CallExpr"@,
            Syntax::IndexExpr => "IndexExpr"@,
            Syntax::ReturnExpr => "ReturnExpr"@,
            Syntax::BlockExpr => "BlockExpr"@,
            Syntax::BinaryExpr => "BinaryExpr"@,
        }
    }

    /// The name of the kind, which is what `Display` shows.
    pub fn as_str(self) -> (s: &'static str)
        ensures
            s@ == self.spec_text(),
    {
        match self {
            Syntax::LeftParen => "LeftParen",
            Syntax::RightParen => "RightParen",
            Syntax::LeftBracket => "LeftBracket",
            Syntax::RightBracket => "RightBracket",
            Syntax::LeftBrace => "LeftBrace",
            Syntax::RightBrace => "RightBrace",
            Syntax::Bar => "Bar",
            Syntax::Eq => "Eq",
            Syntax::Comma => "Comma",
            Syntax::Dot => "Dot",
            Syntax::Plus => "Plus",
            Syntax::Minus => "Minus",
            Syntax::Slash => "Slash",
            Syntax::Star => "Star",
            Syntax::Semi => "Semi",
            Syntax::Colon => "Colon",
            Syntax::Let_KW => "Let_KW",
            Syntax::True_KW => "True_KW",
            Syntax::False_KW => "False_KW",
            Syntax::Fn_KW => "Fn_KW",
            Syntax::Arrow => "Arrow",
            Syntax::Ident => "Ident",
            Syntax::Int => "Int",
            Syntax::Float => "Float",
            Syntax::Whitespaces => "Whitespaces",
            Syntax::Error => "Error",
            Syntax::EndOfFile => "EndOfFile",
            Syntax::File => "File",
            Syntax::FnItem => "FnItem",
            Syntax::Arg => "Arg",
            Syntax::ArgList => "ArgList",
            Syntax::ParamList => "ParamList",
            Syntax::Param => "Param",
            Syntax::ReturnType => "ReturnType",
            Syntax::LetStmt => "LetStmt",
            Syntax::ExprStmt => "ExprStmt",
            Syntax::TypeExpr => "TypeExpr",
            Syntax::LiteralExpr => "LiteralExpr",
            Syntax::ParenExpr => "ParenExpr",
            Syntax::AssignExpr => "AssignExpr",
            Syntax::CallExpr => "CallExpr",
            Syntax::IndexExpr => "IndexExpr",
            Syntax::ReturnExpr => "ReturnExpr",
            Syntax::BlockExpr => "BlockExpr",
            Syntax::BinaryExpr => "BinaryExpr",
        }
    }
}

/// The number of bytes of the Unicode white-space character (`\s`) at `i`, or 0 if there is
/// none there.
pub open spec fn space_len(s: Seq<u8>, i: int) -> int {
    let b = byte_at(s, i);
    let b1 = byte_at(s, i + 1);
    let b2 = byte_at(s, i + 2);
    if (9u8 <= b <= 13u8) || b == 32u8 {
        1
    } else if b == 0xC2u8 && (b1 == 0x85u8 || b1 == 0xA0u8) {
        2
    } else if b == 0xE1u8 && b1 == 0x9Au8 && b2 == 0x80u8 {
        3
    } else if b == 0xE2u8 && b1 == 0x80u8 && ((0x80u8 <= b2 <= 0x8Au8) || b2 == 0xA8u8 || b2
        == 0xA9u8 || b2 == 0xAFu8) {
        3
    } else if b == 0xE2u8 && b1 == 0x81u8 && b2 == 0x9Fu8 {
        3
    } else if b == 0xE3u8 && b1 == 0x80u8 && b2 == 0x80u8 {
        3
    } else {
        0
    }
}

/// The end of the run of white-space characters that starts at `i`.
pub open spec fn space_run(s: Seq<u8>, i: int) -> int
    decreases s.len() - i,
{
    if 0 <= i < s.len() && space_len(s, i) > 0 && i + space_len(s, i) <= s.len() {
        space_run(s, i + space_len(s, i))
    } else {
        i
    }
}

/// The kind of the word `s[i..e]`: one of the four keywords, or an identifier.
pub open spec fn word_kind(s: Seq<u8>, i: int, e: int) -> Syntax {
    if e - i == 3 && s[i] == 108u8 && s[i + 1] == 101u8 && s[i + 2] == 116u8 {
        Syntax::Let_KW
    } else if e - i == 4 && s[i] == 116u8 && s[i + 1] == 114u8 && s[i + 2] == 117u8 && s[i + 3]
        == 101u8 {
        Syntax::True_KW
    } else if e - i == 5 && s[i] == 102u8 && s[i + 1] == 97u8 && s[i + 2] == 108u8 && s[i + 3]
        == 115u8 && s[i + 4] == 101u8 {
        Syntax::False_KW
    } else if e - i == 2 && s[i] == 102u8 && s[i + 1] == 110u8 {
        Syntax::Fn_KW
    } else {
        Syntax::Ident
    }
}

/// The text of a keyword: `let`, `true`, `false` and `fn`; other kinds have none.
pub open spec fn keyword_text(k: Syntax) -> Option<Seq<char>> {
    match k {
        Syntax::Let_KW => Some("let"@),
        Syntax::True_KW => Some("true"@),
        Syntax::False_KW => Some("false"@),
        Syntax::Fn_KW => Some("fn"@),
        _ => None,
    }
}

/// Each keyword is lexed as its own kind: a word whose bytes are the keyword's text is
/// that keyword.
pub proof fn lemma_keyword_words(k: Syntax)
    requires
        keyword_text(k) is Some,
    ensures
        word_kind(ascii_bytes(keyword_text(k)->0), 0, keyword_text(k)->0.len() as int) == k,
{
    match k {
        Syntax::Let_KW => {
            reveal_strlit("let");
        },
        Syntax::True_KW => {
            reveal_strlit("true");
        },
        Syntax::False_KW => {
            reveal_strlit("false");
        },
        Syntax::Fn_KW => {
            reveal_strlit("fn");
        },
        _ => {},
    }
}

/// A word is a keyword only where its bytes are that keyword's text; every other word is
/// an identifier.
pub proof fn lemma_word_is_keyword_text(s: Seq<u8>, i: int, e: int)
    requires
        0 <= i <= e <= s.len(),
    ensures
        word_kind(s, i, e) == Syntax::Ident || (keyword_text(word_kind(s, i, e)) is Some && s.subrange(
            i,
            e,
        ) == ascii_bytes(keyword_text(word_kind(s, i, e))->0)),
{
    match word_kind(s, i, e) {
        Syntax::Let_KW => {
            reveal_strlit("let");
            assert(s.subrange(i, e) =~= ascii_bytes("let"@));
        },
        Syntax::True_KW => {
            reveal_strlit("true");
            assert(s.subrange(i, e) =~= ascii_bytes("true"@));
        },
        Syntax::False_KW => {
            reveal_strlit("false");
            assert(s.subrange(i, e) =~= ascii_bytes("false"@));
        },
        Syntax::Fn_KW => {
            reveal_strlit("fn");
            assert(s.subrange(i, e) =~= ascii_bytes("fn"@));
        },
        _ => {},
    }
}

/// The tokens of a single byte.
pub open spec fn one_byte_token(b: u8) -> Option<Syntax> {
    if b == 40u8 {
        Some(Syntax::LeftParen)
    } else if b == 41u8 {
        Some(Syntax::RightParen)
    } else if b == 91u8 {
        Some(Syntax::LeftBracket)
    } else if b == 93u8 {
        Some(Syntax::RightBracket)
    } else if b == 123u8 {
        Some(Syntax::LeftBrace)
    } else if b == 125u8 {
        Some(Syntax::RightBrace)
    } else if b == 124u8 {
        Some(Syntax::Bar)
    } else if b == 61u8 {
        Some(Syntax::Eq)
    } else if b == 44u8 {
        Some(Syntax::Comma)
    } else if b == 46u8 {
        Some(Syntax::Dot)
    } else if b == 43u8 {
        Some(Syntax::Plus)
    } else if b == 47u8 {
        Some(Syntax::Slash)
    } else if b == 42u8 {
        Some(Syntax::Star)
    } else if b == 59u8 {
        Some(Syntax::Semi)
    } else if b == 58u8 {
        Some(Syntax::Colon)
    } else {
        None
    }
}

/// The token that starts at byte `i` of `s` and the byte where it ends, by longest match;
/// a byte that starts no token gives an `Error` token of one character.
pub open spec fn next_token(s: Seq<u8>, i: int) -> (Syntax, int) {
    let n = s.len() as int;
    let b = s[i];
    if space_len(s, i) > 0 {
        (Syntax::Whitespaces, space_run(s, i))
    } else if b == 45u8 {
        if byte_at(s, i + 1) == 62u8 {
            (Syntax::Arrow, i + 2)
        } else {
            (Syntax::Minus, i + 1)
        }
    } else if is_digit(b) {
        let a = run_end(s, i + 1, ByteClass::IntBody);
        if byte_at(s, a) == 46u8 && is_digit(byte_at(s, a + 1)) {
            (Syntax::Float, run_end(s, a + 1, ByteClass::Digit))
        } else {
            (Syntax::Int, a)
        }
    } else if (65u8 <= b <= 90u8) || (97u8 <= b <= 122u8) || b == 95u8 {
        let e = run_end(s, i + 1, ByteClass::Word);
        (word_kind(s, i, e), e)
    } else if one_byte_token(b) is Some {
        (one_byte_token(b)->0, i + 1)
    } else {
        (Syntax::Error, if i + utf8_len(b) <= n { i + utf8_len(b) } else { n })
    }
}

/// The tokens of `s[i..]`, each as its kind and the byte range it covers.
pub open spec fn lex_from(s: Seq<u8>, i: int) -> Seq<(Syntax, int, int)>
    decreases s.len() - i,
{
    if i < 0 || i >= s.len() {
        seq![]
    } else {
        let (k, e) = next_token(s, i);
        if e <= i || e > s.len() {
            seq![]
        } else {
            seq![(k, i, e)] + lex_from(s, e)
        }
    }
}

/// The tokens of the whole input.
pub open spec fn lex_spec(s: Seq<u8>) -> Seq<(Syntax, int, int)> {
    lex_from(s, 0)
}

proof fn lemma_space_run_bounds(s: Seq<u8>, i: int)
    requires
        0 <= i <= s.len(),
    ensures
        i <= space_run(s, i) <= s.len(),
    decreases s.len() - i,
{
    if 0 <= i < s.len() && space_len(s, i) > 0 && i + space_len(s, i) <= s.len() {
        lemma_space_run_bounds(s, i + space_len(s, i));
    }
}

proof fn lemma_space_len_fits(s: Seq<u8>, i: int)
    requires
        0 <= i < s.len(),
    ensures
        i + space_len(s, i) <= s.len(),
{
}

/// Each token is non-empty and ends within the input.
pub proof fn lemma_next_token_progress(s: Seq<u8>, i: int)
    requires
        0 <= i < s.len(),
    ensures
        i < next_token(s, i).1 <= s.len(),
{
    lemma_space_len_fits(s, i);
    lemma_space_run_bounds(s, i);
    if space_len(s, i) > 0 {
        lemma_space_run_bounds(s, i + space_len(s, i));
    }
    lemma_run_end_bounds(s, i + 1, ByteClass::IntBody);
    lemma_run_end_bounds(s, i + 1, ByteClass::Word);
    let a = run_end(s, i + 1, ByteClass::IntBody);
    if 0 <= a + 1 <= s.len() {
        lemma_run_end_bounds(s, a + 1, ByteClass::Digit);
    }
}

/// A token as the lexer hands it out: its kind and the bytes of the input it covers.
#[derive(Debug)]
pub struct Token {
    pub kind: Syntax,
    pub range: Range<usize>,
}

pub open spec fn tokens_view(ts: Seq<Token>) -> Seq<(Syntax, int, int)> {
    ts.map_values(|t: Token| (t.kind, t.range.start as int, t.range.end as int))
}

fn space_len_exec(bytes: &[u8], i: usize) -> (l: usize)
    requires
        i < bytes@.len(),
    ensures
        l == space_len(bytes@, i as int),
{
    let n = bytes.len();
    let b = bytes[i];
    let b1 = if n - i > 1 {
        bytes[i + 1]
    } else {
        0u8
    };
    let b2 = if n - i > 2 {
        bytes[i + 2]
    } else {
        0u8
    };
    assert(b1 == byte_at(bytes@, i + 1));
    assert(b2 == byte_at(bytes@, i + 2));
    if (9u8 <= b && b <= 13u8) || b == 32u8 {
        1
    } else if b == 0xC2u8 && (b1 == 0x85u8 || b1 == 0xA0u8) {
        2
    } else if b == 0xE1u8 && b1 == 0x9Au8 && b2 == 0x80u8 {
        3
    } else if b == 0xE2u8 && b1 == 0x80u8 && ((0x80u8 <= b2 && b2 <= 0x8Au8) || b2 == 0xA8u8
        || b2 == 0xA9u8 || b2 == 0xAFu8) {
        3
    } else if b == 0xE2u8 && b1 == 0x81u8 && b2 == 0x9Fu8 {
        3
    } else if b == 0xE3u8 && b1 == 0x80u8 && b2 == 0x80u8 {
        3
    } else {
        0
    }
}

fn space_run_exec(bytes: &[u8], i: usize) -> (e: usize)
    requires
        i <= bytes@.len(),
    ensures
        e == space_run(bytes@, i as int),
{
    let mut j = i;
    while j < bytes.len()
        invariant
            i <= j <= bytes@.len(),
            space_run(bytes@, i as int) == space_run(bytes@, j as int),
        decreases bytes@.len() - j,
    {
        let l = space_len_exec(bytes, j);
        proof {
            lemma_space_len_fits(bytes@, j as int);
        }
        if l == 0 {
            return j;
        }
        j = j + l;
    }
    j
}

fn word_kind_exec(bytes: &[u8], i: usize, e: usize) -> (k: Syntax)
    requires
        i < e <= bytes@.len(),
    ensures
        k == word_kind(bytes@, i as int, e as int),
{
    let len = e - i;
    if len == 3 && bytes[i] == 108u8 && bytes[i + 1] == 101u8 && bytes[i + 2] == 116u8 {
        Syntax::Let_KW
    } else if len == 4 && bytes[i] == 116u8 && bytes[i + 1] == 114u8 && bytes[i + 2] == 117u8
        && bytes[i + 3] == 101u8 {
        Syntax::True_KW
    } else if len == 5 && bytes[i] == 102u8 && bytes[i + 1] == 97u8 && bytes[i + 2] == 108u8
        && bytes[i + 3] == 115u8 && bytes[i + 4] == 101u8 {
        Syntax::False_KW
    } else if len == 2 && bytes[i] == 102u8 && bytes[i + 1] == 110u8 {
        Syntax::Fn_KW
    } else {
        Syntax::Ident
    }
}

fn one_byte_token_exec(b: u8) -> (k: Option<Syntax>)
    ensures
        k == one_byte_token(b),
{
    if b == 40u8 {
        Some(Syntax::LeftParen)
    } else if b == 41u8 {
        Some(Syntax::RightParen)
    } else if b == 91u8 {
        Some(Syntax::LeftBracket)
    } else if b == 93u8 {
        Some(Syntax::RightBracket)
    } else if b == 123u8 {
        Some(Syntax::LeftBrace)
    } else if b == 125u8 {
        Some(Syntax::RightBrace)
    } else if b == 124u8 {
        Some(Syntax::Bar)
    } else if b == 61u8 {
        Some(Syntax::Eq)
    } else if b == 44u8 {
        Some(Syntax::Comma)
    } else if b == 46u8 {
        Some(Syntax::Dot)
    } else if b == 43u8 {
        Some(Syntax::Plus)
    } else if b == 47u8 {
        Some(Syntax::Slash)
    } else if b == 42u8 {
        Some(Syntax::Star)
    } else if b == 59u8 {
        Some(Syntax::Semi)
    } else if b == 58u8 {
        Some(Syntax::Colon)
    } else {
        None
    }
}

fn next_token_exec(bytes: &[u8], i: usize) -> (r: (Syntax, usize))
    requires
        i < bytes@.len(),
    ensures
        r.0 == next_token(bytes@, i as int).0,
        r.1 == next_token(bytes@, i as int).1,
{
    proof {
        lemma_next_token_progress(bytes@, i as int);
    }
    let n = bytes.len();
    let b = bytes[i];
    if space_len_exec(bytes, i) > 0 {
        (Syntax::Whitespaces, space_run_exec(bytes, i))
    } else if b == 45u8 {
        if n - i > 1 && bytes[i + 1] == 62u8 {
            (Syntax::Arrow, i + 2)
        } else {
            (Syntax::Minus, i + 1)
        }
    } else if 48u8 <= b && b <= 57u8 {
        let a = scan(bytes, i + 1, ByteClass::IntBody);
        proof {
            lemma_run_end_bounds(bytes@, i + 1, ByteClass::IntBody);
        }
        if a < n && bytes[a] == 46u8 && n - a > 1 && 48u8 <= bytes[a + 1] && bytes[a + 1] <= 57u8 {
            (Syntax::Float, scan(bytes, a + 1, ByteClass::Digit))
        } else {
            (Syntax::Int, a)
        }
    } else if (65u8 <= b && b <= 90u8) || (97u8 <= b && b <= 122u8) || b == 95u8 {
        let e = scan(bytes, i + 1, ByteClass::Word);
        proof {
            lemma_run_end_bounds(bytes@, i + 1, ByteClass::Word);
        }
        (word_kind_exec(bytes, i, e), e)
    } else {
        match one_byte_token_exec(b) {
            Some(k) => (k, i + 1),
            None => {
                let l = utf8_len_exec(b);
                if l <= n - i {
                    (Syntax::Error, i + l)
                } else {
                    (Syntax::Error, n)
                }
            },
        }
    }
}

/// Splits `input` into tokens, white space included, each with the bytes it covers.
pub fn lex(input: &str) -> (tokens: Vec<Token>)
    ensures
        tokens_view(tokens@) == lex_spec(input.spec_bytes()),
{
    let bytes = input.as_bytes();
    let n = bytes.len();
    let mut tokens: Vec<Token> = Vec::new();
    let mut i: usize = 0;
    assert(tokens_view(tokens@) =~= seq![]);
    while i < n
        invariant
            n == bytes@.len(),
            i <= n,
            lex_spec(bytes@) == tokens_view(tokens@) + lex_from(bytes@, i as int),
        decreases n - i,
    {
        let (k, e) = next_token_exec(bytes, i);
        proof {
            lemma_next_token_progress(bytes@, i as int);
        }
        let ghost before = tokens@;
        tokens.push(Token { kind: k, range: Range { start: i, end: e } });
        proof {
            assert(tokens_view(tokens@) =~= tokens_view(before).push((k, i as int, e as int)));
            assert(lex_from(bytes@, i as int) == seq![(k, i as int, e as int)] + lex_from(
                bytes@,
                e as int,
            ));
            assert(tokens_view(before) + lex_from(bytes@, i as int) =~= tokens_view(tokens@)
                + lex_from(bytes@, e as int));
        }
        i = e;
    }
    assert(lex_from(bytes@, n as int) =~= seq![]);
    assert(tokens_view(tokens@) + lex_from(bytes@, n as int) =~= tokens_view(tokens@));
    tokens
}

proof fn lemma_lex_from_tiles(s: Seq<u8>, i: int)
    requires
        0 <= i <= s.len(),
    ensures
        ({
            let t = lex_from(s, i);
            &&& (t.len() == 0 <==> i == s.len())
            &&& t.len() > 0 ==> t[0].1 == i && t[t.len() - 1].2 == s.len()
            &&& forall|j: int| 0 <= j < t.len() ==> i <= #[trigger] t[j].1 < t[j].2 <= s.len()
            &&& forall|j: int| 0 <= j < t.len() - 1 ==> #[trigger] t[j].2 == t[j + 1].1
        }),
    decreases s.len() - i,
{
    if i < s.len() {
        lemma_next_token_progress(s, i);
        let (k, e) = next_token(s, i);
        lemma_lex_from_tiles(s, e);
        let rest = lex_from(s, e);
        let t = lex_from(s, i);
        assert(t == seq![(k, i, e)] + rest);
        assert forall|j: int| 0 <= j < t.len() implies i <= #[trigger] t[j].1 < t[j].2 <= s.len() by {
            if j > 0 {
                assert(t[j] == rest[j - 1]);
            }
        }
        assert forall|j: int| 0 <= j < t.len() - 1 implies #[trigger] t[j].2 == t[j + 1].1 by {
            if j > 0 {
                assert(t[j] == rest[j - 1]);
                assert(t[j + 1] == rest[j]);
            }
        }
    }
}

/// The tokens cover the input without gap or overlap: each one is non-empty, the first
/// starts at byte 0, each starts where the one before it ended, and the last ends at the end
/// of the input (there are none only for empty input).
pub proof fn lemma_tokens_tile(s: Seq<u8>)
    ensures
        ({
            let t = lex_spec(s);
            &&& (t.len() == 0 <==> s.len() == 0)
            &&& t.len() > 0 ==> t[0].1 == 0 && t[t.len() - 1].2 == s.len()
            &&& forall|j: int| 0 <= j < t.len() ==> 0 <= #[trigger] t[j].1 < t[j].2 <= s.len()
            &&& forall|j: int| 0 <= j < t.len() - 1 ==> #[trigger] t[j].2 == t[j + 1].1
        }),
{
    lemma_lex_from_tiles(s, 0);
}

} // verus!
