//! Where a panel's table stands: the selected row and the first row drawn.

use vstd::prelude::*;

verus! {

/// The scroll position of a table.
#[derive(Clone, Copy, PartialEq, Eq, Debug, Structural)]
pub struct TableState {
    /// The first row that is drawn.
    pub offset: usize,
    pub selected: Option<usize>,
}

impl Default for TableState {
    fn default() -> (t: TableState)
        ensures
            t == (TableState { offset: 0, selected: None }),
    {
        TableState { offset: 0, selected: None }
    }
}

/// The table with another row selected. Where none is, the table goes back to its first row.
pub open spec fn with_selection(t: TableState, row: Option<usize>) -> TableState {
    TableState {
        offset: if row is None {
            0
        } else {
            t.offset
        },
        selected: row,
    }
}

/// `x`, or the end of the range `0..=hi` that it lies beyond.
pub open spec fn clamped(x: int, hi: int) -> int {
    if x < 0 {
        0
    } else if x > hi {
        hi
    } else {
        x
    }
}

/// The row that counts as selected: the first where none is.
pub open spec fn row_or_first(t: TableState) -> int {
    match t.selected {
        Some(i) => i as int,
        None => 0,
    }
}

/// The table of `n` rows with its selection moved by `delta` rows, held inside the table. A
/// table without rows stays as it is.
pub open spec fn moved(t: TableState, n: nat, delta: int) -> TableState {
    if n == 0 {
        t
    } else {
        with_selection(t, Some(clamped(row_or_first(t) + delta, n - 1) as usize))
    }
}

/// The table with its selection held inside `n` rows; without rows, nothing is selected.
pub open spec fn held(t: TableState, n: nat) -> TableState {
    if n == 0 {
        with_selection(t, None)
    } else {
        moved(t, n, 0)
    }
}

impl TableState {
    pub fn selected(&self) -> (row: Option<usize>)
        ensures
            row == self.selected,
    {
        self.selected
    }

    pub fn select(&mut self, row: Option<usize>)
        ensures
            *final(self) == with_selection(*old(self), row),
    {
        self.selected = row;
        if row.is_none() {
            self.offset = 0;
        }
    }

    /// Moves the selection by `delta` rows in a table of `n` rows.
    pub fn move_by(&mut self, n: usize, delta: isize)
        ensures
            *final(self) == moved(*old(self), n as nat, delta as int),
    {
        if n == 0 {
            return;
        }
        let cur: usize = match self.selected {
            Some(i) => i,
            None => 0,
        };
        let target: i128 = cur as i128 + delta as i128;
        let last: usize = n - 1;
        let row: usize = if target < 0 {
            0
        } else if target > last as i128 {
            last
        } else {
            target as usize
        };
        self.select(Some(row));
    }

    /// Holds the selection inside `n` rows.
    pub fn hold_within(&mut self, n: usize)
        ensures
            *final(self) == held(*old(self), n as nat),
    {
        if n == 0 {
            self.select(None);
        } else {
            self.move_by(n, 0);
        }
    }
}

/// A selection held inside a table stays where it is when it is held again.
pub proof fn held_is_stable(t: TableState, n: nat)
    requires
        n <= usize::MAX,
    ensures
        held(held(t, n), n) == held(t, n),
{
}

/// Moving a selection always ends inside the table.
pub proof fn moved_stays_inside(t: TableState, n: nat, delta: int)
    requires
        0 < n <= usize::MAX,
    ensures
        moved(t, n, delta).selected matches Some(row) && row < n,
{
}

} // verus!
