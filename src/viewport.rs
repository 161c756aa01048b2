use vstd::prelude::*;

verus! {

/// How many rows, taken in order from row `i` on, fit within `budget` when
/// `used` of it is already taken.
pub open spec fn fit_from(heights: Seq<u32>, i: int, used: int, budget: int) -> nat
    decreases heights.len() - i,
{
    if i < 0 || i >= heights.len() || used + heights[i] > budget {
        0
    } else {
        1 + fit_from(heights, i + 1, used + heights[i], budget)
    }
}

/// The rows shown from `start`: those that fit, and at least one.
pub open spec fn visible_count(heights: Seq<u32>, start: int, budget: int) -> nat {
    let c = fit_from(heights, start, 0, budget);
    if c == 0 {
        1
    } else {
        c
    }
}

/// `sel` held within a list of `len` rows (0 for an empty list).
pub open spec fn clamp_selection(sel: int, len: int) -> int {
    if len == 0 {
        0
    } else if sel > len - 1 {
        len - 1
    } else {
        sel
    }
}

/// The first shown row after scrolling so that the selection is in view.
pub open spec fn next_start(heights: Seq<u32>, budget: int, sel: int, start: int) -> int {
    let s = clamp_selection(sel, heights.len() as int);
    let v = visible_count(heights, start, budget);
    let moved = if s >= start + v {
        s - v + 1
    } else if s < start {
        s
    } else {
        start
    };
    let hi = if heights.len() > v {
        heights.len() - v
    } else {
        0
    };
    if moved > hi {
        hi
    } else {
        moved
    }
}

/// The selected row and the first shown row of a result list.
#[derive(Debug, Clone, Copy, PartialEq, Eq, Structural)]
pub struct Viewport {
    pub selection: usize,
    pub start_offset: usize,
}

impl Viewport {
    /// The first row selected and shown first.
    pub fn new() -> (r: Viewport)
        ensures
            r.selection == 0,
            r.start_offset == 0,
    {
        Viewport { selection: 0, start_offset: 0 }
    }

    /// Clamps the selection to the list whose row heights are `row_heights`
    /// and scrolls so that it is in view. Returns the number of rows shown:
    /// those that fit in `budget` from the first row shown before the call,
    /// and at least one.
    pub fn compute(&mut self, row_heights: &[u32], budget: u32) -> (visible: usize)
        ensures
            final(self).selection == clamp_selection(
                old(self).selection as int,
                row_heights@.len() as int,
            ),
            final(self).start_offset == next_start(
                row_heights@,
                budget as int,
                old(self).selection as int,
                old(self).start_offset as int,
            ),
            visible == visible_count(row_heights@, old(self).start_offset as int, budget as int),
            visible >= 1,
            final(self).start_offset <= final(self).selection,
            row_heights@.len() > 0 ==> final(self).selection < final(self).start_offset + visible,
    {
        let len = row_heights.len();
        let sel: usize = if len == 0 {
            0
        } else if self.selection > len - 1 {
            len - 1
        } else {
            self.selection
        };
        let start = self.start_offset;
        let mut used: u64 = 0;
        let mut count: usize = 0;
        let mut i: usize = start;
        while i < len && used + row_heights[i] as u64 <= budget as u64
            invariant
                start <= i,
                i - start == count,
                used <= budget,
                len == row_heights@.len(),
                fit_from(row_heights@, start as int, 0, budget as int) == count + fit_from(
                    row_heights@,
                    i as int,
                    used as int,
                    budget as int,
                ),
            decreases len - i,
        {
            used = used + row_heights[i] as u64;
            count += 1;
            i += 1;
        }
        let visible: usize = if count == 0 {
            1
        } else {
            count
        };
        let mut next: usize = if sel >= start && sel - start >= visible {
            sel - visible + 1
        } else if sel < start {
            sel
        } else {
            start
        };
        let hi: usize = if len > visible {
            len - visible
        } else {
            0
        };
        if next > hi {
            next = hi;
        }
        self.selection = sel;
        self.start_offset = next;
        visible
    }

    /// Moves the selection one row down, unless it is on the last of `len` rows.
    pub fn select_next(&mut self, len: usize)
        ensures
            final(self).selection == if old(self).selection + 1 < len {
                old(self).selection + 1
            } else {
                old(self).selection as int
            },
            final(self).start_offset == old(self).start_offset,
    {
        if len > 0 && self.selection < len - 1 {
            self.selection = self.selection + 1;
        }
    }

    /// Moves the selection one row up, unless it is on the first row.
    pub fn select_previous(&mut self)
        ensures
            final(self).selection == if old(self).selection > 0 {
                old(self).selection - 1
            } else {
                0
            },
            final(self).start_offset == old(self).start_offset,
    {
        if self.selection > 0 {
            self.selection = self.selection - 1;
        }
    }

    /// Back to the first row, as after any change of the query.
    pub fn reset(&mut self)
        ensures
            final(self).selection == 0,
            final(self).start_offset == 0,
    {
        self.selection = 0;
        self.start_offset = 0;
    }
}

} // verus!
