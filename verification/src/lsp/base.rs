//! The language server's copy of the documents the editor has open.
use crate::vfs::{
    as_ints, line_col_in, line_index, line_starts, line_starts_of, lemma_line_starts_well_formed,
    pos_of, string_insert_str, string_replace_range, lemma_replace_is_delete_then_insert,
    lemma_insert_then_delete_restores,
};
use std::ops::Range;
use vstd::prelude::*;
use vstd::string::StringSliceAdditionalSpecFns;
use vstd::utf8::{encode_utf8, is_char_boundary};

verus! {

broadcast use {vstd::string::group_string_axioms, vstd::utf8::encode_utf8_valid_utf8};

/// The text of a document that the editor has open. Edits mark the line starts stale; every
/// position lookup computes them again.
pub struct FileContent {
    value: String,
    line_starts: Vec<usize>,
    dirty: bool,
}

impl View for FileContent {
    type V = Seq<char>;

    closed spec fn view(&self) -> Seq<char> {
        self.value@
    }
}

impl FileContent {
    #[verifier::type_invariant]
    spec fn inv(self) -> bool {
        &&& encode_utf8(self.value@).len() < usize::MAX
        &&& !self.dirty ==> as_ints(self.line_starts@) == line_starts_of(encode_utf8(self.value@))
    }

    /// The bytes of the text.
    pub open spec fn bytes(&self) -> Seq<u8> {
        encode_utf8(self@)
    }

    pub fn new(contents: String) -> (r: Self)
        requires
            encode_utf8(contents@).len() < usize::MAX,
        ensures
            r@ == contents@,
    {
        FileContent { line_starts: line_starts(contents.as_str()), value: contents, dirty: false }
    }

    fn try_recompute(&mut self)
        ensures
            final(self)@ == old(self)@,
            !final(self).dirty,
    {
        proof {
            use_type_invariant(&*self);
        }
        self.line_starts = line_starts(self.value.as_str());
        self.dirty = false;
    }

    pub fn as_str(&self) -> (s: &str)
        ensures
            s@ == self@,
    {
        self.value.as_str()
    }

    /// The length of the text in bytes.
    pub fn len(&self) -> (n: usize)
        ensures
            n == self.bytes().len(),
    {
        proof {
            use_type_invariant(self);
        }
        self.value.as_str().len()
    }

    pub fn is_empty(&self) -> (b: bool)
        ensures
            b == (self.bytes().len() == 0),
    {
        self.len() == 0
    }

    /// Inserts `text` at byte `offset`, which must be a character boundary (the standard
    /// library panics otherwise).
    pub fn insert(&mut self, offset: usize, text: &str)
        requires
            is_char_boundary(old(self).bytes(), offset as int),
            old(self).bytes().len() + text.spec_bytes().len() < usize::MAX,
        ensures
            final(self).bytes() == old(self).bytes().take(offset as int) + text.spec_bytes()
                + old(self).bytes().skip(offset as int),
    {
        self.dirty = true;
        let mut value = String::new();
        std::mem::swap(&mut value, &mut self.value);
        string_insert_str(&mut value, offset, text);
        self.value = value;
    }

    /// Removes the bytes in `range`, whose ends must be character boundaries.
    pub fn delete(&mut self, range: Range<usize>)
        requires
            range.start <= range.end,
            is_char_boundary(old(self).bytes(), range.start as int),
            is_char_boundary(old(self).bytes(), range.end as int),
        ensures
            final(self).bytes() == old(self).bytes().take(range.start as int) + old(
                self,
            ).bytes().skip(range.end as int),
    {
        proof {
            use_type_invariant(&*self);
            reveal_strlit("");
            assert(""@.len() == 0);
            assert(encode_utf8(""@) =~= Seq::<u8>::empty());
        }
        self.dirty = true;
        let mut value = String::new();
        std::mem::swap(&mut value, &mut self.value);
        string_replace_range(&mut value, range, "");
        proof {
            assert(encode_utf8(value@) =~= old(self).bytes().take(range.start as int) + old(
                self,
            ).bytes().skip(range.end as int));
        }
        self.value = value;
    }

    /// Replacing a range is deleting it and then inserting the text at its start: where
    /// `replace` is allowed, the `delete` and then the `insert` are allowed too, and they
    /// leave the same text.
    pub proof fn lemma_replace_is_delete_then_insert(&self, range: Range<usize>, text: &str)
        requires
            range.start <= range.end,
            is_char_boundary(self.bytes(), range.start as int),
            is_char_boundary(self.bytes(), range.end as int),
            self.bytes().len() + text.spec_bytes().len() < usize::MAX,
        ensures
            ({
                let b = self.bytes();
                let d = b.take(range.start as int) + b.skip(range.end as int);
                &&& is_char_boundary(d, range.start as int)
                &&& d.len() + text.spec_bytes().len() < usize::MAX
                &&& d.take(range.start as int) + text.spec_bytes() + d.skip(range.start as int)
                    == b.take(range.start as int) + text.spec_bytes() + b.skip(range.end as int)
                &&& (b.take(range.start as int) + text.spec_bytes() + b.skip(range.end as int)).len()
                    == b.len() - (range.end - range.start) + text.spec_bytes().len()
            }),
    {
        reveal_with_fuel(is_char_boundary, 1);
        assert(range.end <= self.bytes().len());
        lemma_replace_is_delete_then_insert(
            self.bytes(),
            range.start as int,
            range.end as int,
            text.spec_bytes(),
        );
    }

    /// Inserting text and then deleting the bytes it took gives the text back: where the
    /// `insert` is allowed, the `delete` after it is allowed too.
    pub proof fn lemma_insert_then_delete_restores(&self, offset: usize, text: &str)
        requires
            is_char_boundary(self.bytes(), offset as int),
        ensures
            ({
                let b = self.bytes();
                let i = b.take(offset as int) + text.spec_bytes() + b.skip(offset as int);
                &&& is_char_boundary(i, offset as int)
                &&& is_char_boundary(i, offset + text.spec_bytes().len())
                &&& i.take(offset as int) + i.skip(offset + text.spec_bytes().len()) == b
            }),
    {
        reveal_with_fuel(is_char_boundary, 1);
        assert(offset <= self.bytes().len());
        lemma_insert_then_delete_restores(self.bytes(), offset as int, text.spec_bytes());
    }

    /// Puts `text` in place of the bytes in `range`, whose ends must be character boundaries.
    pub fn replace(&mut self, range: Range<usize>, text: &str)
        requires
            range.start <= range.end,
            is_char_boundary(old(self).bytes(), range.start as int),
            is_char_boundary(old(self).bytes(), range.end as int),
            old(self).bytes().len() + text.spec_bytes().len() < usize::MAX,
        ensures
            final(self).bytes() == old(self).bytes().take(range.start as int) + text.spec_bytes()
                + old(self).bytes().skip(range.end as int),
    {
        self.dirty = true;
        let mut value = String::new();
        std::mem::swap(&mut value, &mut self.value);
        string_replace_range(&mut value, range, text);
        self.value = value;
    }

    /// The line of byte `pos`, and its column in that line.
    pub fn line_col_by_pos(&mut self, pos: usize) -> (r: (usize, usize))
        ensures
            final(self)@ == old(self)@,
            r.0 == line_index(line_starts_of(old(self).bytes()), pos as int),
            r.1 == pos - line_starts_of(old(self).bytes())[r.0 as int],
    {
        self.try_recompute();
        proof {
            use_type_invariant(&*self);
            lemma_line_starts_well_formed(encode_utf8(self.value@));
            let li = as_ints(self.line_starts@);
            assert(li[li.len() - 1] == self.line_starts@[self.line_starts@.len() - 1]);
        }
        let (line, col) = line_col_in(&self.line_starts, pos);
        proof {
            let li = as_ints(self.line_starts@);
            assert(li[line as int] == self.line_starts@[line as int]);
        }
        (line, col)
    }

    /// The byte at column `col` of line `line`; a line past the last counts as line 0. The
    /// sum must fit in a `usize` (it overflows otherwise).
    pub fn pos_by_line_col(&mut self, line: usize, col: usize) -> (r: usize)
        requires
            pos_of(line_starts_of(old(self).bytes()), line as int, col as int) <= usize::MAX,
        ensures
            final(self)@ == old(self)@,
            r == pos_of(line_starts_of(old(self).bytes()), line as int, col as int),
    {
        self.try_recompute();
        proof {
            use_type_invariant(&*self);
        }
        let pos: usize = if line < self.line_starts.len() {
            self.line_starts[line]
        } else {
            0
        };
        proof {
            let li = as_ints(self.line_starts@);
            if line < li.len() {
                assert(li[line as int] == self.line_starts@[line as int]);
            }
        }
        pos + col
    }
}

/// The path of a file as the editor names it.
#[derive(Clone, Hash, PartialEq, Eq)]
pub struct VfsPath(pub String);

} // verus!
