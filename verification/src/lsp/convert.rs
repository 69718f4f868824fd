//! Between byte ranges of a file and editor ranges, given as (line, column) pairs.
use crate::vfs::{lemma_pos_line_col_round_trip, line_index, pos_of, FileContent};
use vstd::utf8::encode_utf8;
use std::ops::Range;
use vstd::prelude::*;

verus! {

/// The editor range of the bytes `range`: the line and column of its start and of its end.
/// Offsets keep their low 32 bits.
pub fn to_range(content: &FileContent, range: Range<usize>) -> (r: ((u32, u32), (u32, u32)))
    ensures
        r.0.0 == line_index(content.starts(), (range.start as u32) as int),
        r.0.1 == (range.start as u32) - content.starts()[r.0.0 as int],
        r.1.0 == line_index(content.starts(), (range.end as u32) as int),
        r.1.1 == (range.end as u32) - content.starts()[r.1.0 as int],
{
    let start = content.line_col_by_pos(range.start as u32);
    let end = content.line_col_by_pos(range.end as u32);
    (start, end)
}

/// The bytes of an editor range: from the byte at the start's line and column to the byte
/// at the end's (each wrapped into 32 bits; a line past the last counts as line 0).
pub fn from_range(content: &FileContent, range: ((u32, u32), (u32, u32))) -> (r: Range<usize>)
    ensures
        r.start == pos_of(content.starts(), range.0.0 as int, range.0.1 as int) % 0x1_0000_0000,
        r.end == pos_of(content.starts(), range.1.0 as int, range.1.1 as int) % 0x1_0000_0000,
{
    let start = content.pos_by_line_col(range.0.0, range.0.1);
    let end = content.pos_by_line_col(range.1.0, range.1.1);
    Range { start: start as usize, end: end as usize }
}

/// Going from a byte of a file to its editor position and back gives the byte again, for
/// files shorter than 2^32 bytes: `from_range` undoes `to_range` on ranges within the file.
pub proof fn lemma_range_round_trip(content: FileContent, pos: int)
    requires
        0 <= pos <= encode_utf8(content@).len(),
        encode_utf8(content@).len() < 0x1_0000_0000,
    ensures
        ({
            let s = content.starts();
            let line = line_index(s, pos);
            pos_of(s, line, pos - s[line]) % 0x1_0000_0000 == pos
        }),
{
    content.lemma_starts_well_formed();
    lemma_pos_line_col_round_trip(content.starts(), encode_utf8(content@).len() as int, pos);
}

} // verus!
