//! The text of a file with the positions where its lines start, and the mapping between
//! byte positions and (line, column) pairs.
use vstd::prelude::*;
use vstd::string::StringSliceAdditionalSpecFns;
use std::ops::Range;
use vstd::utf8::{
    encode_utf8, is_char_boundary, is_char_boundary_iff_not_is_continuation_byte,
    is_char_boundary_start_end_of_seq, is_continuation_byte, valid_utf8, valid_utf8_concat,
    valid_utf8_split,
};

verus! {

/// The starts of the lines that line breaks at or after byte `c` open. A `\n` opens a line
/// at the next byte; a `\r` swallows the byte after it, whatever it is, and opens a line
/// after that one.
pub open spec fn breaks_from(s: Seq<u8>, c: int) -> Seq<int>
    decreases s.len() + 1 - c,
{
    if c < 0 || c >= s.len() {
        seq![]
    } else if s[c] == 10u8 {
        seq![c + 1] + breaks_from(s, c + 1)
    } else if s[c] == 13u8 {
        seq![c + 2] + breaks_from(s, c + 2)
    } else {
        breaks_from(s, c + 1)
    }
}

/// The byte positions at which the lines of `s` start: 0, then one after each line break.
pub open spec fn line_starts_of(s: Seq<u8>) -> Seq<int> {
    seq![0] + breaks_from(s, 0)
}

pub open spec fn as_ints(v: Seq<usize>) -> Seq<int> {
    v.map_values(|x: usize| x as int)
}

/// Whether `ls` rises strictly, starts at 0 and ends at most one past `n`.
pub open spec fn well_formed_starts(ls: Seq<int>, n: int) -> bool {
    &&& ls.len() > 0
    &&& ls[0] == 0
    &&& forall|a: int, b: int| 0 <= a < b < ls.len() ==> ls[a] < ls[b]
    &&& forall|a: int| 0 <= a < ls.len() ==> #[trigger] ls[a] <= n + 1
}

/// How many entries of `ls` are at most `pos`.
pub open spec fn count_le(ls: Seq<int>, pos: int) -> int
    decreases ls.len(),
{
    if ls.len() == 0 {
        0
    } else {
        count_le(ls.drop_last(), pos) + if ls.last() <= pos {
            1int
        } else {
            0int
        }
    }
}

/// The line that holds byte `pos`: the number of line starts at or before it, less one
/// (0 if there is none).
pub open spec fn line_index(ls: Seq<int>, pos: int) -> int {
    if count_le(ls, pos) > 0 {
        count_le(ls, pos) - 1
    } else {
        0
    }
}

/// The byte at column `col` of line `line`; a line past the last counts as line 0.
pub open spec fn pos_of(ls: Seq<int>, line: int, col: int) -> int {
    (if 0 <= line < ls.len() {
        ls[line]
    } else {
        0
    }) + col
}

proof fn lemma_breaks_from(s: Seq<u8>, c: int)
    requires
        0 <= c,
    ensures
        forall|a: int, b: int|
            0 <= a < b < breaks_from(s, c).len() ==> breaks_from(s, c)[a] < breaks_from(s, c)[b],
        forall|a: int|
            0 <= a < breaks_from(s, c).len() ==> c < #[trigger] breaks_from(s, c)[a] <= s.len()
                + 1,
    decreases s.len() + 1 - c,
{
    if c < s.len() {
        let next = if s[c] == 10u8 {
            c + 1
        } else if s[c] == 13u8 {
            c + 2
        } else {
            c + 1
        };
        lemma_breaks_from(s, next);
        let rest = breaks_from(s, next);
        let t = breaks_from(s, c);
        if s[c] == 10u8 || s[c] == 13u8 {
            assert(t == seq![next] + rest);
            assert forall|a: int| 0 <= a < t.len() implies c < #[trigger] t[a] <= s.len() + 1 by {
                if a > 0 {
                    assert(t[a] == rest[a - 1]);
                }
            }
            assert forall|a: int, b: int| 0 <= a < b < t.len() implies t[a] < t[b] by {
                assert(t[b] == rest[b - 1]);
                if a > 0 {
                    assert(t[a] == rest[a - 1]);
                }
            }
        }
    }
}

/// The line starts rise strictly from 0 and end at most one byte past the input.
pub proof fn lemma_line_starts_well_formed(s: Seq<u8>)
    ensures
        well_formed_starts(line_starts_of(s), s.len() as int),
{
    lemma_breaks_from(s, 0);
    let t = line_starts_of(s);
    let r = breaks_from(s, 0);
    assert forall|a: int| 0 <= a < t.len() implies #[trigger] t[a] <= s.len() + 1 by {
        if a > 0 {
            assert(t[a] == r[a - 1]);
        }
    }
    assert forall|a: int, b: int| 0 <= a < b < t.len() implies t[a] < t[b] by {
        assert(t[b] == r[b - 1]);
        if a > 0 {
            assert(t[a] == r[a - 1]);
        }
    }
}

/// In a rising sequence, the entries at most `pos` are exactly those before index `r` when
/// `r` splits them so.
proof fn lemma_count_le_split(ls: Seq<int>, pos: int, r: int)
    requires
        0 <= r <= ls.len(),
        forall|k: int| 0 <= k < r ==> #[trigger] ls[k] <= pos,
        forall|k: int| r <= k < ls.len() ==> #[trigger] ls[k] > pos,
    ensures
        count_le(ls, pos) == r,
    decreases ls.len(),
{
    if ls.len() > 0 {
        let d = ls.drop_last();
        if r == ls.len() {
            assert(ls.last() == ls[ls.len() - 1]);
            assert forall|k: int| 0 <= k < r - 1 implies #[trigger] d[k] <= pos by {
                assert(d[k] == ls[k]);
            }
            lemma_count_le_split(d, pos, r - 1);
        } else {
            assert(ls.last() == ls[ls.len() - 1]);
            assert forall|k: int| 0 <= k < r implies #[trigger] d[k] <= pos by {
                assert(d[k] == ls[k]);
            }
            assert forall|k: int| r <= k < d.len() implies #[trigger] d[k] > pos by {
                assert(d[k] == ls[k]);
            }
            lemma_count_le_split(d, pos, r);
        }
    }
}

/// The line starts of `content`, as `line_starts_of` gives them.
pub fn line_starts(content: &str) -> (r: Vec<usize>)
    requires
        content.spec_bytes().len() < usize::MAX,
    ensures
        as_ints(r@) == line_starts_of(content.spec_bytes()),
{
    let bytes = content.as_bytes();
    let n = bytes.len();
    let mut starts: Vec<usize> = Vec::new();
    starts.push(0);
    let mut c: usize = 0;
    assert(as_ints(starts@) =~= seq![0int]);
    while c < n
        invariant
            n == bytes@.len(),
            n < usize::MAX,
            c <= n + 1,
            line_starts_of(bytes@) == as_ints(starts@) + breaks_from(bytes@, c as int),
        decreases n + 1 - c,
    {
        let byte = bytes[c];
        let ghost before = starts@;
        if byte == 10u8 {
            starts.push(c + 1);
            assert(as_ints(starts@) =~= as_ints(before).push(c + 1));
            assert(as_ints(before) + breaks_from(bytes@, c as int) =~= as_ints(starts@)
                + breaks_from(bytes@, c + 1));
            c = c + 1;
        } else if byte == 13u8 {
            starts.push(c + 2);
            assert(as_ints(starts@) =~= as_ints(before).push(c + 2));
            assert(as_ints(before) + breaks_from(bytes@, c as int) =~= as_ints(starts@)
                + breaks_from(bytes@, c + 2));
            c = c + 2;
        } else {
            c = c + 1;
        }
    }
    assert(breaks_from(bytes@, c as int) =~= seq![]);
    assert(as_ints(starts@) + breaks_from(bytes@, c as int) =~= as_ints(starts@));
    starts
}

/// The number of line starts at or before `pos`, found by binary search, as
/// `partition_point(|&i| i <= pos)` finds it.
pub fn partition_point_le(ls: &Vec<usize>, pos: usize) -> (r: usize)
    requires
        forall|a: int, b: int| 0 <= a < b < ls@.len() ==> ls@[a] < ls@[b],
    ensures
        r as int == count_le(as_ints(ls@), pos as int),
        r <= ls@.len(),
        forall|k: int| 0 <= k < r ==> #[trigger] ls@[k] <= pos,
        forall|k: int| r <= k < ls@.len() ==> #[trigger] ls@[k] > pos,
{
    let mut lo: usize = 0;
    let mut hi: usize = ls.len();
    while lo < hi
        invariant
            lo <= hi <= ls@.len(),
            forall|a: int, b: int| 0 <= a < b < ls@.len() ==> ls@[a] < ls@[b],
            forall|k: int| 0 <= k < lo ==> #[trigger] ls@[k] <= pos,
            forall|k: int| hi <= k < ls@.len() ==> #[trigger] ls@[k] > pos,
        decreases hi - lo,
    {
        let mid = lo + (hi - lo) / 2;
        if ls[mid] <= pos {
            lo = mid + 1;
        } else {
            hi = mid;
        }
    }
    proof {
        let li = as_ints(ls@);
        assert forall|k: int| 0 <= k < lo implies #[trigger] li[k] <= pos by {
            assert(ls@[k] <= pos);
        }
        assert forall|k: int| lo <= k < li.len() implies #[trigger] li[k] > pos by {
            assert(ls@[k] > pos);
        }
        lemma_count_le_split(li, pos as int, lo as int);
    }
    lo
}

/// The line of byte `pos` and its column in that line, computed from line starts that
/// satisfy `well_formed_starts`.
pub fn line_col_in(ls: &Vec<usize>, pos: usize) -> (r: (usize, usize))
    requires
        well_formed_starts(as_ints(ls@), ls@[ls@.len() - 1] as int),
    ensures
        r.0 as int == line_index(as_ints(ls@), pos as int),
        r.0 < ls@.len(),
        r.1 as int == pos - ls@[r.0 as int],
        r.0 <= pos,
{
    proof {
        let li = as_ints(ls@);
        assert forall|a: int, b: int| 0 <= a < b < ls@.len() implies ls@[a] < ls@[b] by {
            assert(li[a] < li[b]);
        }
        assert(li[0] == ls@[0]);
    }
    let p = partition_point_le(ls, pos);
    let line = if p > 0 {
        p - 1
    } else {
        0
    };
    proof {
        let li = as_ints(ls@);
        assert(li[0] == ls@[0]);
        lemma_rising_at_least_index(li, line as int);
        assert(li[line as int] == ls@[line as int]);
    }
    (line, pos - ls[line])
}

proof fn lemma_rising_at_least_index(ls: Seq<int>, k: int)
    requires
        ls.len() > 0,
        ls[0] >= 0,
        forall|a: int, b: int| 0 <= a < b < ls.len() ==> ls[a] < ls[b],
        0 <= k < ls.len(),
    ensures
        ls[k] >= k,
    decreases k,
{
    if k > 0 {
        lemma_rising_at_least_index(ls, k - 1);
    }
}

/// The text of a file and the starts of its lines.
pub struct FileContent {
    content: String,
    line_starts: Vec<usize>,
}

impl View for FileContent {
    type V = Seq<char>;

    closed spec fn view(&self) -> Seq<char> {
        self.content@
    }
}

impl FileContent {
    #[verifier::type_invariant]
    spec fn inv(self) -> bool {
        &&& encode_utf8(self.content@).len() < usize::MAX
        &&& as_ints(self.line_starts@) == line_starts_of(encode_utf8(self.content@))
    }

    /// The line starts of the text, in bytes.
    pub closed spec fn starts(self) -> Seq<int> {
        line_starts_of(encode_utf8(self.content@))
    }

    pub fn new(content: String) -> (r: Self)
        requires
            encode_utf8(content@).len() < usize::MAX,
        ensures
            r@ == content@,
            r.starts() == line_starts_of(encode_utf8(content@)),
    {
        let line_starts = line_starts(content.as_str());
        FileContent { content, line_starts }
    }

    pub fn as_str(&self) -> (s: &str)
        ensures
            s@ == self@,
    {
        self.content.as_str()
    }

    /// The line starts rise from 0 and stay within one past the end of the text.
    pub proof fn lemma_starts_well_formed(self)
        ensures
            well_formed_starts(self.starts(), encode_utf8(self@).len() as int),
    {
        lemma_line_starts_well_formed(encode_utf8(self.content@));
    }

    /// The length of the text in bytes.
    pub fn len(&self) -> (n: usize)
        ensures
            n == encode_utf8(self@).len(),
    {
        proof {
            use_type_invariant(self);
        }
        self.content.as_str().len()
    }

    pub fn is_empty(&self) -> (b: bool)
        ensures
            b == (encode_utf8(self@).len() == 0),
    {
        self.len() == 0
    }

    /// The line of byte `pos`, and its column in that line.
    pub fn line_col_by_pos(&self, pos: u32) -> (r: (u32, u32))
        ensures
            r.0 == line_index(self.starts(), pos as int),
            r.1 == pos - self.starts()[r.0 as int],
    {
        proof {
            use_type_invariant(self);
            lemma_line_starts_well_formed(encode_utf8(self.content@));
            let li = as_ints(self.line_starts@);
            assert(li[li.len() - 1] == self.line_starts@[self.line_starts@.len() - 1]);
        }
        let (line, col) = line_col_in(&self.line_starts, pos as usize);
        proof {
            let li = as_ints(self.line_starts@);
            assert(li[line as int] == self.line_starts@[line as int]);
        }
        (line as u32, col as u32)
    }

    /// The byte at column `col` of line `line`, wrapped into a `u32`; a line past the last
    /// counts as line 0.
    pub fn pos_by_line_col(&self, line: u32, col: u32) -> (r: u32)
        ensures
            r == pos_of(self.starts(), line as int, col as int) % 0x1_0000_0000,
    {
        proof {
            use_type_invariant(self);
        }
        let line = line as usize;
        let pos: usize = if line < self.line_starts.len() {
            self.line_starts[line]
        } else {
            0
        };
        proof {
            let li = as_ints(self.line_starts@);
            if line < li.len() {
                assert(li[line as int] == self.line_starts@[line as int]);
            }
        }
        wrap_sum(pos, col)
    }

    pub fn content(&self) -> (s: &str)
        ensures
            s@ == self@,
    {
        self.content.as_str()
    }
}

/// `(pos + col) as u32`, which keeps the low 32 bits of the sum.
pub fn wrap_sum(pos: usize, col: u32) -> (r: u32)
    ensures
        r == (pos + col) % 0x1_0000_0000,
{
    let low = (pos as u64 % 0x1_0000_0000u64) as u32;
    let r = ((low as u64 + col as u64) % 0x1_0000_0000u64) as u32;
    proof {
        vstd::arithmetic::div_mod::lemma_add_mod_noop(pos as int, col as int, 0x1_0000_0000);
        vstd::arithmetic::div_mod::lemma_mod_twice(col as int, 0x1_0000_0000);
    }
    r
}

/// Going from a byte to its line and column and back gives the byte again.
pub proof fn lemma_pos_line_col_round_trip(ls: Seq<int>, n: int, pos: int)
    requires
        well_formed_starts(ls, n),
        pos >= 0,
    ensures
        ({
            let line = line_index(ls, pos);
            pos_of(ls, line, pos - ls[line]) == pos
        }),
        0 <= line_index(ls, pos) < ls.len(),
        ls[line_index(ls, pos)] <= pos,
{
    let r = split_point(ls, pos);
    lemma_count_le_split(ls, pos, r);
}

/// A line and a column within that line map to a byte that maps back to the same line and
/// column.
pub proof fn lemma_line_col_round_trip(ls: Seq<int>, n: int, line: int, col: int)
    requires
        well_formed_starts(ls, n),
        0 <= line < ls.len(),
        0 <= col,
        line + 1 < ls.len() ==> ls[line] + col < ls[line + 1],
    ensures
        line_index(ls, pos_of(ls, line, col)) == line,
        pos_of(ls, line, col) - ls[line] == col,
{
    let pos = ls[line] + col;
    assert forall|k: int| 0 <= k < line + 1 implies #[trigger] ls[k] <= pos by {
        if k < line {
            assert(ls[k] < ls[line]);
        }
    }
    assert forall|k: int| line + 1 <= k < ls.len() implies #[trigger] ls[k] > pos by {
        if k > line + 1 {
            assert(ls[line + 1] < ls[k]);
        }
    }
    lemma_count_le_split(ls, pos, line + 1);
}

/// The index that splits a rising sequence into the entries at most `pos` and the rest.
proof fn split_point(ls: Seq<int>, pos: int) -> (r: int)
    requires
        forall|a: int, b: int| 0 <= a < b < ls.len() ==> ls[a] < ls[b],
    ensures
        0 <= r <= ls.len(),
        forall|k: int| 0 <= k < r ==> #[trigger] ls[k] <= pos,
        forall|k: int| r <= k < ls.len() ==> #[trigger] ls[k] > pos,
    decreases ls.len(),
{
    if ls.len() == 0 {
        0
    } else {
        let d = ls.drop_last();
        assert forall|a: int, b: int| 0 <= a < b < d.len() implies d[a] < d[b] by {
            assert(d[a] == ls[a] && d[b] == ls[b]);
        }
        let r0 = split_point(d, pos);
        if ls[ls.len() - 1] <= pos {
            assert forall|k: int| 0 <= k < ls.len() implies #[trigger] ls[k] <= pos by {
                if k < ls.len() - 1 {
                    assert(ls[k] < ls[ls.len() - 1]);
                }
            }
            ls.len() as int
        } else {
            assert forall|k: int| 0 <= k < r0 implies #[trigger] ls[k] <= pos by {
                assert(d[k] == ls[k]);
            }
            assert forall|k: int| r0 <= k < ls.len() implies #[trigger] ls[k] > pos by {
                if k < ls.len() - 1 {
                    assert(d[k] == ls[k]);
                }
            }
            r0
        }
    }
}

/// Without `\r`, the line breaks at or after byte `c` open lines exactly one past each `\n`
/// from `c` on.
proof fn lemma_breaks_lf(s: Seq<u8>, c: int)
    requires
        0 <= c,
        forall|i: int| 0 <= i < s.len() ==> s[i] != 13u8,
    ensures
        forall|k: int|
            0 <= k < breaks_from(s, c).len() ==> c < #[trigger] breaks_from(s, c)[k] <= s.len()
                && s[breaks_from(s, c)[k] - 1] == 10u8,
        forall|i: int| c <= i < s.len() && s[i] == 10u8 ==> breaks_from(s, c).contains(i + 1),
    decreases s.len() - c,
{
    if c < s.len() {
        lemma_breaks_lf(s, c + 1);
        let r = breaks_from(s, c + 1);
        if s[c] == 10u8 {
            let b = seq![c + 1] + r;
            assert(breaks_from(s, c) == b);
            assert forall|k: int| 0 <= k < b.len() implies c < #[trigger] b[k] <= s.len() && s[b[k]
                - 1] == 10u8 by {
                if k > 0 {
                    assert(b[k] == r[k - 1]);
                }
            }
            assert forall|i: int| c <= i < s.len() && s[i] == 10u8 implies b.contains(i + 1) by {
                if i == c {
                    assert(b[0] == c + 1);
                } else {
                    let j = choose|j: int| 0 <= j < r.len() && r[j] == i + 1;
                    assert(b[j + 1] == i + 1);
                }
            }
        } else {
            assert(breaks_from(s, c) == r);
        }
    }
}

/// Where a text has no `\r`, its lines start at 0 and one past each `\n`, and nowhere
/// else (in rising order, as `lemma_line_starts_well_formed` shows).
pub proof fn lemma_line_starts_lf_only(s: Seq<u8>)
    requires
        forall|i: int| 0 <= i < s.len() ==> s[i] != 13u8,
    ensures
        line_starts_of(s)[0] == 0,
        forall|k: int|
            1 <= k < line_starts_of(s).len() ==> 1 <= #[trigger] line_starts_of(s)[k] <= s.len()
                && s[line_starts_of(s)[k] - 1] == 10u8,
        forall|i: int| 0 <= i < s.len() && s[i] == 10u8 ==> line_starts_of(s).contains(i + 1),
{
    lemma_breaks_lf(s, 0);
    let ls = line_starts_of(s);
    let r = breaks_from(s, 0);
    assert forall|k: int| 1 <= k < ls.len() implies 1 <= #[trigger] ls[k] <= s.len() && s[ls[k]
        - 1] == 10u8 by {
        assert(ls[k] == r[k - 1]);
    }
    assert forall|i: int| 0 <= i < s.len() && s[i] == 10u8 implies ls.contains(i + 1) by {
        let j = choose|j: int| 0 <= j < r.len() && r[j] == i + 1;
        assert(ls[j + 1] == i + 1);
    }
}

/// The two pieces that splitting valid UTF-8 at a character boundary gives are valid UTF-8.
proof fn lemma_split_valid(b: Seq<u8>, i: int)
    requires
        valid_utf8(b),
        is_char_boundary(b, i),
        0 <= i <= b.len(),
    ensures
        valid_utf8(b.take(i)),
        valid_utf8(b.skip(i)),
{
    valid_utf8_split(b, i);
    assert(b.take(i) =~= b.subrange(0, i));
    assert(b.skip(i) =~= b.subrange(i, b.len() as int));
}

/// In valid UTF-8, a position is a character boundary when it is the end or its byte is not
/// a continuation byte.
proof fn lemma_boundary_at(b: Seq<u8>, i: int)
    requires
        valid_utf8(b),
        0 <= i <= b.len(),
        i == b.len() || !is_continuation_byte(b[i]),
    ensures
        is_char_boundary(b, i),
{
    is_char_boundary_start_end_of_seq(b);
    if i < b.len() {
        is_char_boundary_iff_not_is_continuation_byte(b, i);
    }
}

/// Replacing the bytes from `start` to `end` of valid UTF-8 `b` (both ends character
/// boundaries) by the valid UTF-8 `t` gives the same bytes as deleting them and then
/// inserting `t` at `start`; and `start` is still a character boundary after the deletion,
/// so that the insertion is allowed.
pub proof fn lemma_replace_is_delete_then_insert(b: Seq<u8>, start: int, end: int, t: Seq<u8>)
    requires
        valid_utf8(b),
        valid_utf8(t),
        0 <= start <= end <= b.len(),
        is_char_boundary(b, start),
        is_char_boundary(b, end),
    ensures
        ({
            let d = b.take(start) + b.skip(end);
            &&& valid_utf8(d)
            &&& is_char_boundary(d, start)
            &&& d.take(start) + t + d.skip(start) == b.take(start) + t + b.skip(end)
            &&& (b.take(start) + t + b.skip(end)).len() == b.len() - (end - start) + t.len()
        }),
{
    let d = b.take(start) + b.skip(end);
    lemma_split_valid(b, start);
    lemma_split_valid(b, end);
    valid_utf8_concat(b.take(start), b.skip(end));
    if end < b.len() {
        is_char_boundary_iff_not_is_continuation_byte(b, end);
        assert(d[start] == b[end]);
    }
    lemma_boundary_at(d, start);
    assert(d.take(start) =~= b.take(start));
    assert(d.skip(start) =~= b.skip(end));
}

/// Inserting the valid UTF-8 `t` at the character boundary `o` of valid UTF-8 `b` and then
/// deleting the bytes from `o` to `o + t.len()` gives `b` back; both ends of the inserted
/// bytes are character boundaries, so that the deletion is allowed.
pub proof fn lemma_insert_then_delete_restores(b: Seq<u8>, o: int, t: Seq<u8>)
    requires
        valid_utf8(b),
        valid_utf8(t),
        0 <= o <= b.len(),
        is_char_boundary(b, o),
    ensures
        ({
            let i = b.take(o) + t + b.skip(o);
            &&& valid_utf8(i)
            &&& is_char_boundary(i, o)
            &&& is_char_boundary(i, o + t.len())
            &&& i.take(o) + i.skip(o + t.len()) == b
        }),
{
    let i = b.take(o) + t + b.skip(o);
    lemma_split_valid(b, o);
    valid_utf8_concat(b.take(o), t);
    valid_utf8_concat(b.take(o) + t, b.skip(o));
    if o < b.len() {
        is_char_boundary_iff_not_is_continuation_byte(b, o);
        assert(i[o + t.len()] == b[o]);
    }
    lemma_boundary_at(i, o + t.len());
    if t.len() > 0 {
        is_char_boundary_start_end_of_seq(t);
        is_char_boundary_iff_not_is_continuation_byte(t, 0);
        assert(i[o] == t[0]);
    } else if o < b.len() {
        assert(i[o] == b[o]);
    }
    lemma_boundary_at(i, o);
    assert(i.take(o) + i.skip(o + t.len()) =~= b);
}

/// `String::insert_str`: the bytes of `text` go in at byte `idx`. The standard library panics
/// when `idx` is not on a character boundary (or past the end), so that is required.
#[verifier::external_body]
pub(crate) fn string_insert_str(s: &mut String, idx: usize, text: &str)
    requires
        is_char_boundary(encode_utf8(old(s)@), idx as int),
    ensures
        encode_utf8(final(s)@) == encode_utf8(old(s)@).take(idx as int) + text.spec_bytes()
            + encode_utf8(old(s)@).skip(idx as int),
{
    s.insert_str(idx, text)
}

/// `String::replace_range`: the bytes in `range` give way to those of `text`. The standard
/// library panics when the range is reversed or an end of it is not on a character boundary
/// (or past the end), so that is required.
#[verifier::external_body]
pub(crate) fn string_replace_range(s: &mut String, range: Range<usize>, text: &str)
    requires
        range.start <= range.end,
        is_char_boundary(encode_utf8(old(s)@), range.start as int),
        is_char_boundary(encode_utf8(old(s)@), range.end as int),
    ensures
        encode_utf8(final(s)@) == encode_utf8(old(s)@).take(range.start as int) + text.spec_bytes()
            + encode_utf8(old(s)@).skip(range.end as int),
{
    s.replace_range(range, text)
}

} // verus!
