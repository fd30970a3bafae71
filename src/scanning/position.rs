use std::ops::Range;
use vstd::prelude::*;

verus! {

/// A source span: a half-open range of lines and a half-open range of
/// columns. The start is where the first contributing character stands, the
/// end is one past where the last one stands.
#[derive(Debug, Clone, Copy, PartialEq, Eq)]
pub struct Position {
    pub ln_start: usize,
    pub ln_end: usize,
    pub col_start: usize,
    pub col_end: usize,
}

impl Position {
    /// The span's start and end points are in source order: the span covers
    /// at least one line, and on a single line at least one column.
    pub open spec fn wf(&self) -> bool {
        &&& self.ln_start < self.ln_end
        &&& (self.ln_end == self.ln_start + 1 ==> self.col_start < self.col_end)
    }

    /// The single character at `ln`, `col`.
    pub open spec fn at(ln: int, col: int) -> Position {
        Position {
            ln_start: ln as usize,
            ln_end: (ln + 1) as usize,
            col_start: col as usize,
            col_end: (col + 1) as usize,
        }
    }

    /// Whether the last point of `other` is not before the first point of `self`.
    pub open spec fn ends_after_start_of(&self, other: Position) -> bool {
        ||| other.ln_end - 1 > self.ln_start
        ||| (other.ln_end - 1 == self.ln_start && other.col_end - 1 >= self.col_start)
    }

    pub fn new(ln: Range<usize>, col: Range<usize>) -> (r: Self)
        ensures
            r.ln_start == ln.start,
            r.ln_end == ln.end,
            r.col_start == col.start,
            r.col_end == col.end,
    {
        Position { ln_start: ln.start, ln_end: ln.end, col_start: col.start, col_end: col.end }
    }

    pub fn zero() -> (r: Self)
        ensures
            r == Position::at(0, 0),
            r.wf(),
    {
        Position { ln_start: 0, ln_end: 1, col_start: 0, col_end: 1 }
    }

    /// Grows the span so that it ends where `pos` ends; the start is kept.
    pub fn extend(&mut self, pos: &Position)
        ensures
            final(self).ln_start == old(self).ln_start,
            final(self).col_start == old(self).col_start,
            final(self).ln_end == pos.ln_end,
            final(self).col_end == pos.col_end,
            old(self).wf() && pos.wf() && old(self).ends_after_start_of(*pos) ==> final(self).wf(),
    {
        self.ln_end = pos.ln_end;
        self.col_end = pos.col_end;
    }
}

} // verus!
