//! The screen buffer: the visible rows and the rows that scrolling has moved
//! out of sight, above and below.

pub mod cell;
pub mod dump;
pub mod resize;
pub mod row;
pub mod sections;

use vstd::prelude::*;
use crate::grid::cell::Cell;
use crate::grid::row::{blank_row, Row};

pub use crate::grid::sections::{Sections, TextSection};

verus! {

/// The most rows that one scroll request moves.
pub const MAX_SCROLL: u32 = 4;

/// The screen buffer.
///
/// `scrollback` holds the rows that left the screen at the top, the latest
/// last; `scrolldown` those that left it at the bottom.
#[derive(Debug)]
pub struct Grid {
    rows: Vec<Row>,
    scrollback: Vec<Row>,
    scrolldown: Vec<Row>,
    columns: usize,
}

/// The mathematical value of a [`Grid`].
pub struct GridView {
    pub rows: Seq<Seq<Cell>>,
    pub scrollback: Seq<Seq<Cell>>,
    pub scrolldown: Seq<Seq<Cell>>,
    pub columns: nat,
}

/// The cells of each row, in order.
pub open spec fn rows_view(rows: Seq<Row>) -> Seq<Seq<Cell>> {
    Seq::new(rows.len(), |i: int| rows[i]@)
}

/// `row` made `columns` wide: cut at the end, or filled up with erased cells.
pub open spec fn fit_row(row: Seq<Cell>, columns: nat) -> Seq<Cell> {
    Seq::new(
        columns,
        |i: int|
            if i < row.len() {
                row[i]
            } else {
                Cell::blank()
            },
    )
}

/// Whether a size is one that a grid can have on this machine: the text of
/// the whole screen, at four bytes a character and with a line end for each
/// row, has a length that fits in `usize`.
pub open spec fn size_fits(columns: nat, lines: nat) -> bool {
    4 * ((columns + 1) * lines) <= usize::MAX
}

impl GridView {
    /// The number of visible rows.
    pub open spec fn lines(self) -> nat {
        self.rows.len()
    }

    /// Every visible row is exactly `columns` wide, and the size is one the
    /// machine can hold.
    pub open spec fn wf(self) -> bool {
        &&& forall|i: int| 0 <= i < self.rows.len() ==> (#[trigger] self.rows[i]).len() == self.columns
        &&& size_fits(self.columns, self.rows.len())
    }

    /// A grid of erased cells without history.
    pub open spec fn blank(columns: nat, lines: nat) -> GridView {
        GridView {
            rows: Seq::new(lines, |i: int| blank_row(columns)),
            scrollback: Seq::empty(),
            scrolldown: Seq::empty(),
            columns,
        }
    }

    /// Whether `(row, column)` names a cell.
    pub open spec fn holds(self, row: int, column: int) -> bool {
        0 <= row < self.rows.len() && 0 <= column < self.columns
    }

    /// The grid with one cell replaced.
    pub open spec fn with_cell(self, row: int, column: int, cell: Cell) -> GridView {
        GridView { rows: self.rows.update(row, self.rows[row].update(column, cell)), ..self }
    }

    /// The grid after the content moved up by one row: the top row goes to
    /// the scrollback, and the bottom row is the row that last left at the
    /// bottom, made to fit, or an erased row where there is none. A grid
    /// without rows stays as it is.
    pub open spec fn scrolled_up(self) -> GridView {
        if self.rows.len() == 0 {
            self
        } else if self.scrolldown.len() > 0 {
            GridView {
                rows: self.rows.drop_first().push(fit_row(self.scrolldown.last(), self.columns)),
                scrollback: self.scrollback.push(self.rows.first()),
                scrolldown: self.scrolldown.drop_last(),
                columns: self.columns,
            }
        } else {
            GridView {
                rows: self.rows.drop_first().push(blank_row(self.columns)),
                scrollback: self.scrollback.push(self.rows.first()),
                scrolldown: self.scrolldown,
                columns: self.columns,
            }
        }
    }

    /// The grid after the content moved down by one row: the mirror image of
    /// [`GridView::scrolled_up`].
    pub open spec fn scrolled_down(self) -> GridView {
        if self.rows.len() == 0 {
            self
        } else if self.scrollback.len() > 0 {
            GridView {
                rows: seq![fit_row(self.scrollback.last(), self.columns)] + self.rows.drop_last(),
                scrollback: self.scrollback.drop_last(),
                scrolldown: self.scrolldown.push(self.rows.last()),
                columns: self.columns,
            }
        } else {
            GridView {
                rows: seq![blank_row(self.columns)] + self.rows.drop_last(),
                scrollback: self.scrollback,
                scrolldown: self.scrolldown.push(self.rows.last()),
                columns: self.columns,
            }
        }
    }

    /// The grid after up to `steps` moves up. Without `force` the moves end
    /// as soon as no row is waiting below the screen.
    pub open spec fn scroll_up_by(self, steps: nat, force: bool) -> GridView
        decreases steps,
    {
        if steps == 0 || (!force && self.scrolldown.len() == 0) {
            self
        } else {
            self.scrolled_up().scroll_up_by((steps - 1) as nat, force)
        }
    }

    /// The grid after up to `steps` moves down. Without `force` the moves end
    /// as soon as no row is waiting above the screen.
    pub open spec fn scroll_down_by(self, steps: nat, force: bool) -> GridView
        decreases steps,
    {
        if steps == 0 || (!force && self.scrollback.len() == 0) {
            self
        } else {
            self.scrolled_down().scroll_down_by((steps - 1) as nat, force)
        }
    }
}

/// The number of moves that a request for `delta` rows makes at most.
pub open spec fn scroll_steps(delta: u32) -> nat {
    if delta < MAX_SCROLL {
        delta as nat
    } else {
        MAX_SCROLL as nat
    }
}

impl View for Grid {
    type V = GridView;

    closed spec fn view(&self) -> GridView {
        GridView {
            rows: rows_view(self.rows@),
            scrollback: rows_view(self.scrollback@),
            scrolldown: rows_view(self.scrolldown@),
            columns: self.columns as nat,
        }
    }
}

/// Cuts `row` at `columns` cells or fills it up with erased cells.
fn fit(row: Row, columns: usize) -> (fitted: Row)
    ensures
        fitted@ == fit_row(row@, columns as nat),
{
    if row.inner.len() == columns {
        assert(row@ =~= fit_row(row@, columns as nat));
        return row;
    }
    let mut inner: Vec<Cell> = Vec::new();
    let mut i: usize = 0;
    while i < columns
        invariant
            i <= columns,
            inner@ == fit_row(row@, columns as nat).take(i as int),
        decreases columns - i,
    {
        let cell = if i < row.inner.len() {
            row.inner[i]
        } else {
            Cell::new()
        };
        inner.push(cell);
        assert(inner@ =~= fit_row(row@, columns as nat).take(i as int + 1));
        i += 1;
    }
    assert(fit_row(row@, columns as nat).take(columns as int) =~= fit_row(row@, columns as nat));
    Row { inner }
}

impl Grid {
    /// Whether the grid is in order. Every grid that this module hands out
    /// is, and every operation keeps it so.
    pub open spec fn wf(&self) -> bool {
        self@.wf()
    }

    /// Whether a grid of this size can be had on this machine.
    pub fn fits(columns: usize, lines: usize) -> (ok: bool)
        ensures
            ok == size_fits(columns as nat, lines as nat),
    {
        let width: usize = match columns.checked_add(1) {
            Some(width) => width,
            None => {
                assert(lines >= 1 ==> (columns + 1) * lines > usize::MAX) by (nonlinear_arith)
                    requires
                        columns + 1 > usize::MAX,
                ;
                return lines == 0;
            },
        };
        match width.checked_mul(lines) {
            Some(cells) => cells.checked_mul(4).is_some(),
            None => false,
        }
    }

    /// A grid of `lines` rows of `columns` erased cells, without history.
    pub fn new(columns: usize, lines: usize) -> (grid: Grid)
        requires
            size_fits(columns as nat, lines as nat),
        ensures
            grid.wf(),
            grid@ == GridView::blank(columns as nat, lines as nat),
    {
        let mut rows: Vec<Row> = Vec::new();
        let mut i: usize = 0;
        while i < lines
            invariant
                i <= lines,
                rows@.len() == i,
                rows_view(rows@) == Seq::new(i as nat, |k: int| blank_row(columns as nat)),
            decreases lines - i,
        {
            let ghost before = rows@;
            rows.push(Row::new(columns));
            assert(rows_view(rows@) =~= Seq::new((i + 1) as nat, |k: int| blank_row(columns as nat)))
                by {
                assert forall|k: int| 0 <= k < i implies rows_view(rows@)[k] == blank_row(
                    columns as nat,
                ) by {
                    assert(rows@[k] == before[k]);
                    assert(rows_view(before)[k] == before[k]@);
                }
            }
            i += 1;
        }
        let grid = Grid { rows, scrollback: Vec::new(), scrolldown: Vec::new(), columns };
        assert(grid@.scrollback =~= Seq::empty());
        assert(grid@.scrolldown =~= Seq::empty());
        grid
    }

    /// The width of the grid.
    pub fn columns(&self) -> (n: usize)
        ensures
            n == self@.columns,
    {
        self.columns
    }

    /// The number of visible rows.
    pub fn lines(&self) -> (n: usize)
        ensures
            n == self@.lines(),
    {
        self.rows.len()
    }

    /// The number of rows waiting above the screen.
    pub fn scrollback_len(&self) -> (n: usize)
        ensures
            n == self@.scrollback.len(),
    {
        self.scrollback.len()
    }

    /// The number of rows waiting below the screen.
    pub fn scrolldown_len(&self) -> (n: usize)
        ensures
            n == self@.scrolldown.len(),
    {
        self.scrolldown.len()
    }

    /// The cell at `(row, column)`.
    pub fn get(&self, row: usize, column: usize) -> (cell: Cell)
        requires
            self.wf(),
            self@.holds(row as int, column as int),
        ensures
            cell == self@.rows[row as int][column as int],
    {
        self.rows[row].inner[column]
    }

    /// Replaces the cell at `(row, column)`.
    pub fn set(&mut self, row: usize, column: usize, cell: Cell)
        requires
            old(self).wf(),
            old(self)@.holds(row as int, column as int),
        ensures
            final(self).wf(),
            final(self)@ == old(self)@.with_cell(row as int, column as int, cell),
    {
        let ghost before = self@;
        assert(self.rows@[row as int]@ == before.rows[row as int]);
        self.rows[row].inner[column] = cell;
        assert(self@.rows =~= before.rows.update(
            row as int,
            before.rows[row as int].update(column as int, cell),
        )) by {
            assert forall|i: int| 0 <= i < self.rows@.len() implies #[trigger] self@.rows[i]
                == before.rows.update(
                row as int,
                before.rows[row as int].update(column as int, cell),
            )[i] by {
                if i != row {
                    assert(self.rows@[i] == old(self).rows@[i]);
                    assert(before.rows[i] == old(self).rows@[i]@);
                }
            }
        }
        assert(self@.scrollback == before.scrollback);
        assert(self@.scrolldown == before.scrolldown);
        assert forall|i: int| 0 <= i < self@.rows.len() implies (#[trigger] self@.rows[i]).len()
            == self@.columns by {
            assert(before.rows[i].len() == before.columns);
        }
    }

    fn scroll_up_once(&mut self)
        requires
            old(self).wf(),
        ensures
            final(self).wf(),
            final(self)@ == old(self)@.scrolled_up(),
    {
        let ghost before = self@;
        if self.rows.len() == 0 {
            return ;
        }
        let top: Row = self.rows.remove(0);
        let bottom: Row = match self.scrolldown.pop() {
            Some(row) => fit(row, self.columns),
            None => Row::new(self.columns),
        };
        self.scrollback.push(top);
        self.rows.push(bottom);
        assert(self@.rows =~= before.scrolled_up().rows);
        assert(self@.scrollback =~= before.scrolled_up().scrollback);
        assert(self@.scrolldown =~= before.scrolled_up().scrolldown);
        assert forall|i: int| 0 <= i < self@.rows.len() implies (#[trigger] self@.rows[i]).len()
            == self@.columns by {
            if i + 1 < self@.rows.len() {
                assert(self@.rows[i] == before.rows[i + 1]);
            }
        }
    }

    fn scroll_down_once(&mut self)
        requires
            old(self).wf(),
        ensures
            final(self).wf(),
            final(self)@ == old(self)@.scrolled_down(),
    {
        let ghost before = self@;
        let bottom: Row = match self.rows.pop() {
            Some(row) => row,
            None => {
                return ;
            },
        };
        let top: Row = match self.scrollback.pop() {
            Some(row) => fit(row, self.columns),
            None => Row::new(self.columns),
        };
        self.scrolldown.push(bottom);
        self.rows.insert(0, top);
        assert(self@.rows =~= before.scrolled_down().rows);
        assert(self@.scrollback =~= before.scrolled_down().scrollback);
        assert(self@.scrolldown =~= before.scrolled_down().scrolldown);
        assert forall|i: int| 0 <= i < self@.rows.len() implies (#[trigger] self@.rows[i]).len()
            == self@.columns by {
            if i > 0 {
                assert(self@.rows[i] == before.rows[i - 1]);
            }
        }
    }

    /// Moves the content up by `delta` rows, at most four. Each move sends
    /// the top row to the scrollback and brings back at the bottom the row
    /// that last left there. Without `force` the moves stop once no such row
    /// is left; with it, erased rows come in instead.
    pub fn scroll_up(&mut self, delta: u32, force: bool)
        requires
            old(self).wf(),
        ensures
            final(self).wf(),
            final(self)@ == old(self)@.scroll_up_by(scroll_steps(delta), force),
    {
        let steps: u32 = if delta < MAX_SCROLL {
            delta
        } else {
            MAX_SCROLL
        };
        let mut left: u32 = steps;
        while left > 0
            invariant
                self.wf(),
                self@.scroll_up_by(left as nat, force) == old(self)@.scroll_up_by(
                    scroll_steps(delta),
                    force,
                ),
            decreases left,
        {
            if !force && self.scrolldown.len() == 0 {
                return ;
            }
            self.scroll_up_once();
            left -= 1;
        }
    }

    /// Moves the content down by `delta` rows, at most four: the mirror
    /// image of [`Grid::scroll_up`].
    pub fn scroll_down(&mut self, delta: u32, force: bool)
        requires
            old(self).wf(),
        ensures
            final(self).wf(),
            final(self)@ == old(self)@.scroll_down_by(scroll_steps(delta), force),
    {
        let steps: u32 = if delta < MAX_SCROLL {
            delta
        } else {
            MAX_SCROLL
        };
        let mut left: u32 = steps;
        while left > 0
            invariant
                self.wf(),
                self@.scroll_down_by(left as nat, force) == old(self)@.scroll_down_by(
                    scroll_steps(delta),
                    force,
                ),
            decreases left,
        {
            if !force && self.scrollback.len() == 0 {
                return ;
            }
            self.scroll_down_once();
            left -= 1;
        }
    }
}

/// Moving the content up by one row and then down by one row, both forced,
/// shows the rows that were there before, cell for cell. The scrollback is as
/// before too.
pub proof fn lemma_scroll_up_then_down(grid: GridView)
    requires
        grid.wf(),
    ensures
        grid.scroll_up_by(1, true).scroll_down_by(1, true).rows == grid.rows,
        grid.scroll_up_by(1, true).scroll_down_by(1, true).scrollback == grid.scrollback,
{
    let up = grid.scrolled_up();
    assert(grid.scroll_up_by(1, true) == up) by {
        assert(up.scroll_up_by(0, true) == up);
    }
    let down = up.scrolled_down();
    assert(up.scroll_down_by(1, true) == down) by {
        assert(down.scroll_down_by(0, true) == down);
    }
    if grid.rows.len() > 0 {
        assert(fit_row(grid.rows.first(), grid.columns) =~= grid.rows.first());
        assert(down.rows =~= grid.rows);
        assert(down.scrollback =~= grid.scrollback);
    }
}


impl GridView {
    /// The grid with the cells of `row` from column `from` on replaced by
    /// `cell`.
    pub open spec fn with_row_filled(self, row: int, from: int, cell: Cell) -> GridView {
        GridView {
            rows: self.rows.update(
                row,
                Seq::new(
                    self.columns,
                    |j: int|
                        if j >= from {
                            cell
                        } else {
                            self.rows[row][j]
                        },
                ),
            ),
            ..self
        }
    }
}

impl Grid {
    /// Replaces the cells of `row` from column `from` on by `cell`.
    pub fn fill_row(&mut self, row: usize, from: usize, cell: Cell)
        requires
            old(self).wf(),
            row < old(self)@.lines(),
        ensures
            final(self).wf(),
            final(self)@ == old(self)@.with_row_filled(row as int, from as int, cell),
    {
        let ghost before = self@;
        let columns: usize = self.columns;
        let mut j: usize = from;
        if from >= columns {
            let ghost filled = before.with_row_filled(row as int, from as int, cell);
            assert(before.rows[row as int] =~= filled.rows[row as int]);
            assert(before.rows =~= filled.rows);
            return ;
        }
        while j < columns
            invariant
                self.wf(),
                from <= j <= columns,
                columns == before.columns,
                row < before.rows.len(),
                before.wf(),
                self@.columns == before.columns,
                self@.scrollback == before.scrollback,
                self@.scrolldown == before.scrolldown,
                self@.rows.len() == before.rows.len(),
                forall|i: int| 0 <= i < before.rows.len() && i != row ==> self@.rows[i] == before.rows[i],
                forall|k: int|
                    0 <= k < columns ==> self@.rows[row as int][k] == if from <= k < j {
                        cell
                    } else {
                        before.rows[row as int][k]
                    },
            decreases columns - j,
        {
            self.set(row, j, cell);
            j += 1;
        }
        assert(self@.rows[row as int] =~= before.with_row_filled(
            row as int,
            from as int,
            cell,
        ).rows[row as int]);
        assert(self@.rows =~= before.with_row_filled(row as int, from as int, cell).rows);
    }
}

} // verus!
