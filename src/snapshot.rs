//! Snapshots: independent copies of a rectangular region of the grid, kept
//! column by column, that can be written back at any offset.
use vstd::prelude::*;

use crate::grid::{lemma_clear_blanks_every_cell, rect_region, rgba_at, Cell, GridState};

verus! {

/// A copy of a region of the grid. Cell `(i, j)` of the region (column `i`,
/// row `j`) is entry `i * size.1 + j` of each array; `fg` and `bg` hold four
/// bytes per entry.
#[derive(Debug)]
pub struct Snapshot {
    pub begin: (u32, u32),
    pub size: (u32, u32),
    pub fg: Vec<u8>,
    pub bg: Vec<u8>,
    pub set: Vec<u8>,
    pub text: Vec<u8>,
}

impl Clone for Snapshot {
    fn clone(&self) -> (r: Snapshot)
        ensures
            r.begin == self.begin,
            r.size == self.size,
            r.fg@ == self.fg@,
            r.bg@ == self.bg@,
            r.set@ == self.set@,
            r.text@ == self.text@,
    {
        Snapshot {
            begin: self.begin,
            size: self.size,
            fg: self.fg.clone(),
            bg: self.bg.clone(),
            set: self.set.clone(),
            text: self.text.clone(),
        }
    }
}

impl Snapshot {
    /// The arrays are as long as the region's size asks.
    pub open spec fn wf(&self) -> bool {
        let n = self.size.0 as nat * self.size.1 as nat;
        &&& self.text@.len() == n
        &&& self.set@.len() == n
        &&& self.fg@.len() == 4 * n
        &&& self.bg@.len() == 4 * n
    }

    /// Entry `k` of the snapshot as a cell.
    pub open spec fn entry(&self, k: int) -> Cell {
        Cell { glyph: self.text@[k], fg: rgba_at(self.fg@, k), bg: rgba_at(self.bg@, k), set: self.set@[k] }
    }

    /// The cell that the snapshot holds for column `i` and row `j` of its region.
    pub open spec fn at(&self, i: int, j: int) -> Cell {
        self.entry(i * self.size.1 + j)
    }

    /// The snapshot is a copy of the `size` region of `g` at `begin`.
    pub open spec fn captures(&self, g: GridState) -> bool {
        &&& self.wf()
        &&& forall|i: int, j: int|
            0 <= i < self.size.0 && 0 <= j < self.size.1 ==> #[trigger] self.at(i, j) == g.cell(
                self.begin.0 + i,
                self.begin.1 + j,
            )
    }

    /// What applying the snapshot at `(x, y)` writes at cell `(a, b)`.
    pub open spec fn val_at(self, x: int, y: int) -> spec_fn(int, int) -> Cell {
        |a: int, b: int| self.at(a - x, b - y)
    }
}

pub proof fn lemma_column_major(i: int, j: int, h: int, w: int)
    requires
        0 <= i < w,
        0 <= j < h,
    ensures
        0 <= i * h + j < w * h,
        i * h + j + 1 <= (i + 1) * h,
        (i + 1) * h == i * h + h,
{
    assert(0 <= i * h + j < w * h && i * h + j + 1 <= (i + 1) * h && (i + 1) * h == i * h + h)
        by (nonlinear_arith)
        requires
            0 <= i < w,
            0 <= j < h,
    ;
}

/// Capturing a region of the grid, clearing the grid, then writing the
/// snapshot back at the region's own origin restores every cell of the region
/// (glyph, colours and font selector) to what it held before the clear.
pub proof fn lemma_snapshot_round_trip(before: GridState, snap: Snapshot, after: GridState)
    requires
        before.wf(),
        snap.captures(before),
        snap.begin.0 + snap.size.0 < before.cols(),
        snap.begin.1 + snap.size.1 < before.rows(),
        before.cleared().repainted(
            after,
            rect_region(snap.begin.0 as int, snap.begin.1 as int, snap.size.0 as int, snap.size.1 as int, true),
            snap.val_at(snap.begin.0 as int, snap.begin.1 as int),
        ),
    ensures
        forall|a: int, b: int|
            snap.begin.0 <= a < snap.begin.0 + snap.size.0 && snap.begin.1 <= b < snap.begin.1 + snap.size.1
                ==> #[trigger] after.cell(a, b) == before.cell(a, b),
{
    lemma_clear_blanks_every_cell(before);
    let x = snap.begin.0 as int;
    let y = snap.begin.1 as int;
    assert forall|a: int, b: int|
        x <= a < x + snap.size.0 && y <= b < y + snap.size.1 implies #[trigger] after.cell(a, b)
        == before.cell(a, b) by {
        assert(before.cleared().in_bounds(a, b));
        assert(rect_region(x, y, snap.size.0 as int, snap.size.1 as int, true)(a, b));
        assert(after.cell(a, b) == snap.at(a - x, b - y));
        assert(snap.at(a - x, b - y) == before.cell(x + (a - x), y + (b - y)));
    }
}

} // verus!
