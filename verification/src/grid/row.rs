//! A row of cells.

use vstd::prelude::*;
use crate::grid::cell::Cell;

verus! {

/// A horizontal line of the screen. Its view is the sequence of its cells.
#[derive(Debug, Clone)]
pub struct Row {
    pub inner: Vec<Cell>,
}

impl View for Row {
    type V = Seq<Cell>;

    open spec fn view(&self) -> Seq<Cell> {
        self.inner@
    }
}

/// A row of `columns` erased cells.
pub open spec fn blank_row(columns: nat) -> Seq<Cell> {
    Seq::new(columns, |i: int| Cell::blank())
}

/// The same row with every character erased; each cell keeps its style.
pub open spec fn cleared_row(row: Seq<Cell>) -> Seq<Cell> {
    Seq::new(row.len(), |i: int| Cell { c: None, style: row[i].style })
}

impl Row {
    /// A row of `columns` erased cells.
    pub fn new(columns: usize) -> (row: Row)
        ensures
            row@ == blank_row(columns as nat),
    {
        let mut inner: Vec<Cell> = Vec::new();
        let mut i: usize = 0;
        while i < columns
            invariant
                i <= columns,
                inner@ == blank_row(i as nat),
            decreases columns - i,
        {
            inner.push(Cell::new());
            i += 1;
        }
        Row { inner }
    }

    /// Erases every character and keeps each cell's style.
    pub fn reset(&mut self)
        ensures
            final(self)@ == cleared_row(old(self)@),
    {
        let n: usize = self.inner.len();
        let mut i: usize = 0;
        while i < n
            invariant
                i <= n,
                self.inner@.len() == n,
                n == old(self)@.len(),
                forall|k: int| 0 <= k < i ==> self.inner@[k] == (Cell { c: None, style: old(self)@[k].style }),
                forall|k: int| i <= k < n ==> self.inner@[k] == old(self)@[k],
            decreases n - i,
        {
            let style = self.inner[i].style;
            self.inner[i] = Cell { c: None, style };
            i += 1;
        }
    }

    /// The number of cells.
    pub fn len(&self) -> (n: usize)
        ensures
            n == self@.len(),
    {
        self.inner.len()
    }

    /// The cell at `index`.
    pub fn get(&self, index: usize) -> (cell: Cell)
        requires
            index < self@.len(),
        ensures
            cell == self@[index as int],
    {
        self.inner[index]
    }
}

} // verus!
