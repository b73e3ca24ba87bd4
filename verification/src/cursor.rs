use vstd::prelude::*;

verus! {

/// A caret in a line of text together with the anchor of a selection.
///
/// The selection is the half-open range between `start` and `pos`, in
/// whichever order the two stand.
pub struct Cursor {
    pub start: usize,
    pub pos: usize,
}

impl Cursor {
    /// The lower end of the selection.
    pub open spec fn low(&self) -> int {
        if self.start <= self.pos { self.start as int } else { self.pos as int }
    }

    /// The upper end of the selection.
    pub open spec fn high(&self) -> int {
        if self.start <= self.pos { self.pos as int } else { self.start as int }
    }

    /// A caret at the beginning of the line, with nothing selected.
    pub fn new() -> (r: Self)
        ensures
            r.start == 0,
            r.pos == 0,
    {
        Cursor { start: 0, pos: 0 }
    }

    /// The selection with its ends in order.
    pub fn selection(&self) -> (r: (usize, usize))
        ensures
            r.0 as int == self.low(),
            r.1 as int == self.high(),
            r.0 <= r.1,
    {
        if self.start <= self.pos {
            (self.start, self.pos)
        } else {
            (self.pos, self.start)
        }
    }

    /// The number of positions that the selection spans.
    pub fn selection_size(&self) -> (r: usize)
        ensures
            r as int == self.high() - self.low(),
    {
        if self.start <= self.pos {
            self.pos - self.start
        } else {
            self.start - self.pos
        }
    }

    /// Puts the caret at `pos` and drops the selection.
    pub fn move_to(&mut self, pos: usize)
        ensures
            final(self).start == pos,
            final(self).pos == pos,
    {
        self.start = pos;
        self.pos = pos;
    }

    /// Moves the caret to `pos` and keeps the anchor, so that the selection
    /// grows or shrinks.
    pub fn select_to(&mut self, pos: usize)
        ensures
            final(self).start == old(self).start,
            final(self).pos == pos,
    {
        self.pos = pos;
    }

    /// Drops the selection and leaves the caret where it is.
    pub fn clear_selection(&mut self)
        ensures
            final(self).start == old(self).pos,
            final(self).pos == old(self).pos,
    {
        self.start = self.pos;
    }

    /// Selects from `start` to `end`, with the caret at `end`.
    pub fn set_selection(&mut self, start: usize, end: usize)
        ensures
            final(self).start == start,
            final(self).pos == end,
    {
        self.start = start;
        self.pos = end;
    }
}

} // verus!
