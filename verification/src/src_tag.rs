//! Source tags: a (unit id, character offset) pair that records where in some
//! named source text an entity originated, for diagnostics.

use vstd::prelude::*;
use vstd::string::StrSliceExecFns;

verus! {

/// Identifies the character offset in a source unit where something is located.
#[derive(Debug, Clone, Copy, PartialEq, Eq, Structural)]
pub struct SrcTag {
    pub unit: usize,
    pub offset: usize,
}

/// Row and column (both 1-based) of character offset `off` within text `s`:
/// walking the first `off` characters, a newline advances the row and resets
/// the column.
pub open spec fn spec_row_col(s: Seq<char>, off: int) -> (int, int)
    decreases off,
{
    if off <= 0 {
        (1, 1)
    } else {
        let rc = spec_row_col(s, off - 1);
        if s[off - 1] == '\n' {
            (rc.0 + 1, 1)
        } else {
            (rc.0, rc.1 + 1)
        }
    }
}

/// The index of the first newline at or after `i` in `s`, or `s.len()` if
/// there is none.
pub open spec fn spec_line_end(s: Seq<char>, i: int) -> int
    decreases s.len() - i,
{
    if i < 0 || i >= s.len() {
        s.len() as int
    } else if s[i] == '\n' {
        i
    } else {
        spec_line_end(s, i + 1)
    }
}

impl SrcTag {
    pub fn new(unit: usize, offset: usize) -> (r: SrcTag)
        ensures
            r.unit == unit,
            r.offset == offset,
    {
        SrcTag { unit, offset }
    }

    /// A tag that points nowhere, for entities with no source location.
    pub fn invalid() -> (r: SrcTag)
        ensures
            r.unit == usize::MAX,
            r.offset == usize::MAX,
    {
        SrcTag { unit: usize::MAX, offset: usize::MAX }
    }

    /// Returns the (row, column) of this tag in the given program text.
    pub fn row_col(&self, program: &str) -> (rc: (usize, usize))
        requires
            self.offset <= program@.len(),
            self.offset < usize::MAX,
        ensures
            (rc.0 as int, rc.1 as int) == spec_row_col(program@, self.offset as int),
    {
        let mut row: usize = 1;
        let mut col: usize = 1;
        let mut i: usize = 0;
        while i < self.offset
            invariant
                i <= self.offset,
                self.offset <= program@.len(),
                self.offset < usize::MAX,
                1 <= row <= i + 1,
                1 <= col <= i + 1,
                (row as int, col as int) == spec_row_col(program@, i as int),
            decreases self.offset - i,
        {
            if program.get_char(i) == '\n' {
                row = row + 1;
                col = 1;
            } else {
                col = col + 1;
            }
            i = i + 1;
        }
        (row, col)
    }

    /// Given the source program, returns the line of code that the tag points
    /// to: the text from the tag's offset up to (not counting) the next
    /// newline.
    pub fn line<'a>(&self, source: &'a str) -> (r: &'a str)
        requires
            self.offset <= source@.len(),
        ensures
            r@ == source@.subrange(
                self.offset as int,
                spec_line_end(source@, self.offset as int),
            ),
    {
        let len = source.unicode_len();
        let mut end: usize = self.offset;
        while end < len && source.get_char(end) != '\n'
            invariant
                self.offset <= end <= len,
                len == source@.len(),
                spec_line_end(source@, self.offset as int) == spec_line_end(
                    source@,
                    end as int,
                ),
            decreases len - end,
        {
            end = end + 1;
        }
        source.substring_char(self.offset, end)
    }
}

/// Implemented by entities that carry a source tag.
pub trait SrcTagged {
    fn src_tag(&self) -> SrcTag;
}

} // verus!
