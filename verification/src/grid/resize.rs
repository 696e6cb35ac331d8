//! Changing the size of the grid: the cells are laid out anew, row by row, in
//! the new width.

use vstd::prelude::*;
use crate::grid::cell::Cell;
use crate::grid::row::{blank_row, Row};
use crate::grid::{fit_row, rows_view, size_fits, Grid, GridView};

verus! {

/// All cells of the rows in reading order.
pub open spec fn flat_cells(rows: Seq<Seq<Cell>>) -> Seq<Cell>
    decreases rows.len(),
{
    if rows.len() == 0 {
        Seq::<Cell>::empty()
    } else {
        flat_cells(rows.drop_last()) + rows.last()
    }
}

/// Where the new layout stands: the rows that are complete, the cells placed
/// in the row under construction, and whether a line was just ended by an
/// erased cell, so that the erased cells after it are passed over.
pub struct Layout {
    pub rows: Seq<Seq<Cell>>,
    pub current: Seq<Cell>,
    pub skipping: bool,
}

impl Layout {
    /// The layout before any cell.
    pub open spec fn start() -> Layout {
        Layout { rows: Seq::empty(), current: Seq::empty(), skipping: false }
    }

    /// The layout after one more cell, for rows `width` wide (at least one)
    /// and at most `limit` rows.
    ///
    /// Once `limit` rows are complete nothing is placed any more. A written
    /// cell goes to the row under construction, after a full row was
    /// completed. An erased cell ends the line: it completes the row under
    /// construction, and the erased cells that follow it at once are passed
    /// over.
    pub open spec fn place(self, cell: Cell, width: nat, limit: nat) -> Layout {
        if self.rows.len() >= limit {
            self
        } else if self.skipping && cell.c is None {
            self
        } else {
            let turned = if self.current.len() == width {
                Layout {
                    rows: self.rows.push(fit_row(self.current, width)),
                    current: Seq::empty(),
                    skipping: false,
                }
            } else {
                Layout { skipping: false, ..self }
            };
            if turned.rows.len() >= limit {
                turned
            } else if cell.c is Some {
                Layout { current: turned.current.push(cell), ..turned }
            } else {
                Layout {
                    rows: turned.rows.push(fit_row(turned.current, width)),
                    current: Seq::empty(),
                    skipping: true,
                }
            }
        }
    }

    /// The layout after all of `cells`, in order.
    pub open spec fn place_all(self, cells: Seq<Cell>, width: nat, limit: nat) -> Layout
        decreases cells.len(),
    {
        if cells.len() == 0 {
            self
        } else {
            self.place_all(cells.drop_last(), width, limit).place(cells.last(), width, limit)
        }
    }

    /// The `limit` rows that the layout ends as: the complete rows, then the
    /// row under construction, then erased rows.
    pub open spec fn finish(self, width: nat, limit: nat) -> Seq<Seq<Cell>> {
        Seq::new(
            limit,
            |i: int|
                if i < self.rows.len() {
                    self.rows[i]
                } else if i == self.rows.len() {
                    fit_row(self.current, width)
                } else {
                    blank_row(width)
                },
        )
    }

    /// What holds of every layout that cells were placed in.
    pub open spec fn wf(self, width: nat, limit: nat) -> bool {
        &&& self.rows.len() <= limit
        &&& self.current.len() <= width
        &&& forall|i: int| 0 <= i < self.rows.len() ==> (#[trigger] self.rows[i]).len() == width
    }
}

/// The rows of a grid with the given rows after it was made `columns` wide
/// and `lines` high. A width of 0 leaves rows without cells.
pub open spec fn resized_rows(rows: Seq<Seq<Cell>>, columns: nat, lines: nat) -> Seq<Seq<Cell>> {
    if columns == 0 {
        Seq::new(lines, |i: int| Seq::<Cell>::empty())
    } else {
        Layout::start().place_all(flat_cells(rows), columns, lines).finish(columns, lines)
    }
}

impl GridView {
    /// The grid after a change of size. The rows that scrolling has moved
    /// out of sight stay as they are.
    pub open spec fn resized(self, columns: nat, lines: nat) -> GridView {
        GridView { rows: resized_rows(self.rows, columns, lines), columns, ..self }
    }
}

/// Placing a cell keeps a layout in order.
pub proof fn lemma_place_wf(layout: Layout, cell: Cell, width: nat, limit: nat)
    requires
        layout.wf(width, limit),
        width > 0,
    ensures
        layout.place(cell, width, limit).wf(width, limit),
{
}

/// Placing the cells of two lists, one after the other, is placing the cells
/// of both at once.
pub proof fn lemma_place_all_add(
    layout: Layout,
    a: Seq<Cell>,
    b: Seq<Cell>,
    width: nat,
    limit: nat,
)
    ensures
        layout.place_all(a + b, width, limit) == layout.place_all(a, width, limit).place_all(
            b,
            width,
            limit,
        ),
    decreases b.len(),
{
    if b.len() == 0 {
        assert(a + b == a);
    } else {
        lemma_place_all_add(layout, a, b.drop_last(), width, limit);
        assert((a + b).drop_last() == a + b.drop_last());
        assert((a + b).last() == b.last());
    }
}

/// The row under construction, `width` wide with erased cells at its end.
fn complete(current: Vec<Cell>, width: usize) -> (row: Row)
    requires
        current@.len() <= width,
    ensures
        row@ == fit_row(current@, width as nat),
{
    let mut inner = current;
    while inner.len() < width
        invariant
            inner@.len() <= width,
            current@.len() <= inner@.len(),
            forall|i: int| 0 <= i < current@.len() ==> inner@[i] == current@[i],
            forall|i: int| current@.len() <= i < inner@.len() ==> inner@[i] == Cell::blank(),
        decreases width - inner@.len(),
    {
        inner.push(Cell::new());
    }
    assert(inner@ =~= fit_row(current@, width as nat));
    Row { inner }
}

impl Grid {
    /// Gives the grid a new size.
    ///
    /// The cells of the visible rows are taken in reading order and laid out
    /// anew in rows of `new_columns` cells. Written cells fill a row one
    /// after the other; an erased cell ends the line that is being filled.
    /// The layout ends when `new_lines` rows are there; where the cells give
    /// fewer, erased rows follow. The rows that scrolling has moved out of
    /// sight stay as they are.
    pub fn resize(&mut self, new_columns: usize, new_lines: usize)
        requires
            old(self).wf(),
            size_fits(new_columns as nat, new_lines as nat),
        ensures
            final(self).wf(),
            final(self)@ == old(self)@.resized(new_columns as nat, new_lines as nat),
            final(self)@.columns == new_columns,
            final(self)@.lines() == new_lines,
    {
        let ghost before = self@;
        let ghost width = new_columns as nat;
        let ghost limit = new_lines as nat;
        let mut new_rows: Vec<Row> = Vec::new();
        if new_columns == 0 {
            while new_rows.len() < new_lines
                invariant
                    new_rows@.len() <= new_lines,
                    forall|i: int| 0 <= i < new_rows@.len() ==> (#[trigger] new_rows@[i])@
                        == Seq::<Cell>::empty(),
                decreases new_lines - new_rows@.len(),
            {
                new_rows.push(Row { inner: Vec::new() });
            }
            self.rows = new_rows;
            self.columns = new_columns;
            assert(self@.rows =~= resized_rows(before.rows, width, limit));
            return ;
        }
        let mut current: Vec<Cell> = Vec::new();
        let mut skipping: bool = false;
        let lines: usize = self.rows.len();
        let columns: usize = self.columns;
        let mut r: usize = 0;
        assert(before.rows.take(0) =~= Seq::<Seq<Cell>>::empty());
        assert(rows_view(new_rows@) =~= Seq::<Seq<Cell>>::empty());
        while r < lines && new_rows.len() < new_lines
            invariant
                self.wf(),
                self@ == before,
                lines == before.rows.len(),
                columns == before.columns,
                width == new_columns,
                limit == new_lines,
                width > 0,
                r <= lines,
                (Layout { rows: rows_view(new_rows@), current: current@, skipping }).wf(
                    width,
                    limit,
                ),
                (Layout { rows: rows_view(new_rows@), current: current@, skipping })
                    == Layout::start().place_all(
                    flat_cells(before.rows.take(r as int)),
                    width,
                    limit,
                ),
            decreases lines - r,
        {
            let ghost done = flat_cells(before.rows.take(r as int));
            let ghost row = before.rows[r as int];
            let mut c: usize = 0;
            assert(done + row.take(0) =~= done);
            while c < columns && new_rows.len() < new_lines
                invariant
                    self.wf(),
                    self@ == before,
                    lines == before.rows.len(),
                    columns == before.columns,
                    width == new_columns,
                    limit == new_lines,
                    width > 0,
                    r < lines,
                    c <= columns,
                    row == before.rows[r as int],
                    row.len() == columns,
                    (Layout { rows: rows_view(new_rows@), current: current@, skipping }).wf(
                        width,
                        limit,
                    ),
                    (Layout { rows: rows_view(new_rows@), current: current@, skipping })
                        == Layout::start().place_all(done + row.take(c as int), width, limit),
                decreases columns - c,
            {
                let cell: Cell = self.get(r, c);
                let ghost layout = Layout { rows: rows_view(new_rows@), current: current@, skipping };
                proof {
                    let longer = done + row.take(c as int + 1);
                    assert(longer.drop_last() == done + row.take(c as int));
                    assert(longer.last() == cell);
                }
                if !(skipping && cell.c.is_none()) {
                    skipping = false;
                    if current.len() == new_columns {
                        let mut full: Vec<Cell> = Vec::new();
                        core::mem::swap(&mut current, &mut full);
                        let ghost rows_before = new_rows@;
                        new_rows.push(complete(full, new_columns));
                        assert(rows_view(new_rows@) =~= rows_view(rows_before).push(
                            fit_row(layout.current, width),
                        ));
                    }
                    if new_rows.len() < new_lines {
                        if cell.c.is_some() {
                            current.push(cell);
                        } else {
                            let mut ended: Vec<Cell> = Vec::new();
                            core::mem::swap(&mut current, &mut ended);
                            let ghost rows_before = new_rows@;
                            let ghost placed = ended@;
                            new_rows.push(complete(ended, new_columns));
                            assert(rows_view(new_rows@) =~= rows_view(rows_before).push(
                                fit_row(placed, width),
                            ));
                            skipping = true;
                        }
                    }
                }
                assert((Layout { rows: rows_view(new_rows@), current: current@, skipping })
                    == layout.place(cell, width, limit));
                proof {
                    lemma_place_wf(layout, cell, width, limit);
                }
                c += 1;
            }
            proof {
                let longer = before.rows.take(r as int + 1);
                assert(longer.drop_last() == before.rows.take(r as int));
                assert(longer.last() == row);
                if c < columns {
                    // The limit was reached inside this row: the cells that are left change nothing.
                    lemma_place_all_add(Layout::start(), done + row.take(c as int), row.skip(c as int), width, limit);
                    lemma_place_all_stopped(
                        Layout { rows: rows_view(new_rows@), current: current@, skipping },
                        row.skip(c as int),
                        width,
                        limit,
                    );
                    assert(done + row.take(c as int) + row.skip(c as int) =~= done + row);
                } else {
                    assert(row.take(c as int) == row);
                }
            }
            r += 1;
        }
        proof {
            let layout = Layout { rows: rows_view(new_rows@), current: current@, skipping };
            if r < lines {
                // The limit was reached: the rows that are left change nothing.
                let done = flat_cells(before.rows.take(r as int));
                lemma_flat_cells_split(before.rows, r as int);
                let rest = flat_cells(before.rows.skip(r as int));
                lemma_place_all_add(Layout::start(), done, rest, width, limit);
                lemma_place_all_stopped(layout, rest, width, limit);
            } else {
                assert(before.rows.take(r as int) == before.rows);
            }
            assert(layout == Layout::start().place_all(flat_cells(before.rows), width, limit));
        }
        let ghost layout = Layout { rows: rows_view(new_rows@), current: current@, skipping };
        if new_rows.len() < new_lines {
            let ghost rows_before = new_rows@;
            new_rows.push(complete(current, new_columns));
            assert(rows_view(new_rows@) =~= rows_view(rows_before).push(
                fit_row(layout.current, width),
            ));
        }
        while new_rows.len() < new_lines
            invariant
                width == new_columns,
                limit == new_lines,
                layout.wf(width, limit),
                new_rows@.len() <= new_lines,
                new_rows@.len() >= layout.rows.len(),
                new_rows@.len() > layout.rows.len() || layout.rows.len() == limit,
                forall|i: int| 0 <= i < new_rows@.len() ==> (#[trigger] rows_view(new_rows@)[i])
                    == layout.finish(width, limit)[i],
            decreases new_lines - new_rows@.len(),
        {
            let ghost rows_before = new_rows@;
            new_rows.push(Row::new(new_columns));
            assert forall|i: int| 0 <= i < new_rows@.len() implies (#[trigger] rows_view(
                new_rows@,
            )[i]) == layout.finish(width, limit)[i] by {
                if i < rows_before.len() {
                    assert(rows_view(rows_before)[i] == layout.finish(width, limit)[i]);
                }
            }
        }
        self.rows = new_rows;
        self.columns = new_columns;
        assert(self@.rows =~= resized_rows(before.rows, width, limit));
        assert(self@.scrollback == before.scrollback);
        assert(self@.scrolldown == before.scrolldown);
    }
}

/// Once the limit of rows is reached, further cells change nothing.
pub proof fn lemma_place_all_stopped(layout: Layout, cells: Seq<Cell>, width: nat, limit: nat)
    requires
        layout.rows.len() >= limit,
    ensures
        layout.place_all(cells, width, limit) == layout,
    decreases cells.len(),
{
    if cells.len() > 0 {
        lemma_place_all_stopped(layout, cells.drop_last(), width, limit);
    }
}

/// The cells of the rows are those of the first `n` rows and then those of
/// the others.
pub proof fn lemma_flat_cells_split(rows: Seq<Seq<Cell>>, n: int)
    requires
        0 <= n <= rows.len(),
    ensures
        flat_cells(rows) == flat_cells(rows.take(n)) + flat_cells(rows.skip(n)),
    decreases rows.len() - n,
{
    if n == rows.len() {
        assert(rows.take(n) == rows);
        assert(rows.skip(n) =~= Seq::<Seq<Cell>>::empty());
        assert(flat_cells(rows) + Seq::<Cell>::empty() == flat_cells(rows));
    } else {
        let rest = rows.skip(n);
        assert(rest.drop_last() == rows.drop_last().skip(n));
        assert(rest.last() == rows.last());
        lemma_flat_cells_split(rows.drop_last(), n);
        assert(rows.drop_last().take(n) == rows.take(n));
        assert(flat_cells(rows.take(n)) + flat_cells(rest.drop_last()) + rows.last()
            == flat_cells(rows.take(n)) + (flat_cells(rest.drop_last()) + rows.last()));
    }
}


/// The written cells among `cells`, in order.
pub open spec fn written(cells: Seq<Cell>) -> Seq<Cell>
    decreases cells.len(),
{
    if cells.len() == 0 {
        Seq::<Cell>::empty()
    } else if cells.last().c is Some {
        written(cells.drop_last()).push(cells.last())
    } else {
        written(cells.drop_last())
    }
}

/// The written cells of two lists laid end to end.
pub proof fn lemma_written_add(a: Seq<Cell>, b: Seq<Cell>)
    ensures
        written(a + b) == written(a) + written(b),
    decreases b.len(),
{
    if b.len() == 0 {
        assert(a + b == a);
        assert(written(a) + Seq::<Cell>::empty() == written(a));
    } else {
        lemma_written_add(a, b.drop_last());
        assert((a + b).drop_last() == a + b.drop_last());
        assert((a + b).last() == b.last());
        if b.last().c is Some {
            assert((written(a) + written(b.drop_last())).push(b.last()) == written(a) + written(
                b.drop_last(),
            ).push(b.last()));
        }
    }
}

/// There is no written cell among erased cells.
proof fn lemma_written_blank(cells: Seq<Cell>)
    requires
        forall|i: int| 0 <= i < cells.len() ==> cells[i] == Cell::blank(),
    ensures
        written(cells) == Seq::<Cell>::empty(),
    decreases cells.len(),
{
    if cells.len() > 0 {
        lemma_written_blank(cells.drop_last());
    }
}

/// Making a row wider adds no written cell.
proof fn lemma_written_fit(row: Seq<Cell>, width: nat)
    requires
        row.len() <= width,
    ensures
        written(fit_row(row, width)) == written(row),
{
    let filler = Seq::new((width - row.len()) as nat, |i: int| Cell::blank());
    assert(fit_row(row, width) =~= row + filler);
    lemma_written_add(row, filler);
    lemma_written_blank(filler);
    assert(written(row) + Seq::<Cell>::empty() == written(row));
}

/// The cells of two lists of rows laid end to end.
pub proof fn lemma_flat_cells_add(a: Seq<Seq<Cell>>, b: Seq<Seq<Cell>>)
    ensures
        flat_cells(a + b) == flat_cells(a) + flat_cells(b),
{
    lemma_flat_cells_split(a + b, a.len() as int);
    assert((a + b).take(a.len() as int) == a);
    assert((a + b).skip(a.len() as int) == b);
}

/// There is no written cell in erased rows.
proof fn lemma_written_blank_rows(rows: Seq<Seq<Cell>>, width: nat)
    requires
        forall|i: int| 0 <= i < rows.len() ==> rows[i] == blank_row(width),
    ensures
        written(flat_cells(rows)) == Seq::<Cell>::empty(),
    decreases rows.len(),
{
    if rows.len() > 0 {
        lemma_written_blank_rows(rows.drop_last(), width);
        lemma_written_add(flat_cells(rows.drop_last()), rows.last());
        lemma_written_blank(rows.last());
        assert(Seq::<Cell>::empty() + Seq::<Cell>::empty() == Seq::<Cell>::empty());
    }
}

impl Layout {
    /// The cells that the layout holds, in reading order.
    pub open spec fn cells(self) -> Seq<Cell> {
        flat_cells(self.rows) + self.current
    }

    /// What placing keeps true of a layout, for the cells that were handed
    /// to it: its written cells are the first of theirs, and all of theirs
    /// while it has room; once it has no room, no row is under construction.
    pub open spec fn keeps(self, cells: Seq<Cell>, width: nat, limit: nat) -> bool {
        &&& self.wf(width, limit)
        &&& written(self.cells()).is_prefix_of(written(cells))
        &&& self.rows.len() < limit ==> written(self.cells()) == written(cells)
        &&& self.rows.len() >= limit ==> self.current.len() == 0
    }
}

proof fn lemma_place_keeps(layout: Layout, cells: Seq<Cell>, cell: Cell, width: nat, limit: nat)
    requires
        width > 0,
        layout.keeps(cells, width, limit),
    ensures
        layout.place(cell, width, limit).keeps(cells.push(cell), width, limit),
{
    let next = layout.place(cell, width, limit);
    let longer = cells.push(cell);
    assert(longer.drop_last() == cells);
    assert(longer.last() == cell);
    let had = written(layout.cells());
    assert(written(cells).is_prefix_of(written(longer))) by {
        if cell.c is Some {
            assert(written(longer).take(written(cells).len() as int) =~= written(cells));
        }
    }
    assert(had.is_prefix_of(written(longer))) by {
        assert(written(longer).take(had.len() as int) =~= written(cells).take(had.len() as int));
    }
    if layout.rows.len() >= limit {
    } else if layout.skipping && cell.c is None {
    } else {
        let turned = if layout.current.len() == width {
            Layout {
                rows: layout.rows.push(fit_row(layout.current, width)),
                current: Seq::empty(),
                skipping: false,
            }
        } else {
            Layout { skipping: false, ..layout }
        };
        assert(written(turned.cells()) == had) by {
            if layout.current.len() == width {
                assert(turned.rows.drop_last() == layout.rows);
                assert(fit_row(layout.current, width) =~= layout.current);
                assert(turned.cells() =~= layout.cells());
            }
        }
        if turned.rows.len() >= limit {
        } else if cell.c is Some {
            assert(next.cells() =~= turned.cells().push(cell));
            assert(next.cells().drop_last() == turned.cells());
        } else {
            assert(next.rows.drop_last() == turned.rows);
            lemma_written_add(flat_cells(turned.rows), fit_row(turned.current, width));
            lemma_written_add(flat_cells(turned.rows), turned.current);
            lemma_written_fit(turned.current, width);
            assert(next.cells() =~= flat_cells(turned.rows) + fit_row(turned.current, width));
        }
    }
}

proof fn lemma_place_all_keeps(cells: Seq<Cell>, width: nat, limit: nat)
    requires
        width > 0,
    ensures
        Layout::start().place_all(cells, width, limit).keeps(cells, width, limit),
    decreases cells.len(),
{
    if cells.len() == 0 {
        assert(Layout::start().cells() =~= Seq::<Cell>::empty());
    } else {
        lemma_place_all_keeps(cells.drop_last(), width, limit);
        lemma_place_keeps(
            Layout::start().place_all(cells.drop_last(), width, limit),
            cells.drop_last(),
            cells.last(),
            width,
            limit,
        );
        assert(cells.drop_last().push(cells.last()) == cells);
    }
}

/// The written cells of the rows that a layout ends as are the written cells
/// that it holds.
proof fn lemma_finish_written(layout: Layout, width: nat, limit: nat)
    requires
        layout.wf(width, limit),
        layout.rows.len() >= limit ==> layout.current.len() == 0,
    ensures
        written(flat_cells(layout.finish(width, limit))) == written(layout.cells()),
{
    let rows = layout.finish(width, limit);
    if layout.rows.len() >= limit {
        assert(rows =~= layout.rows);
        assert(layout.cells() =~= flat_cells(layout.rows));
    } else {
        let filled = layout.rows.push(fit_row(layout.current, width));
        let rest = rows.skip(filled.len() as int);
        assert(rows =~= filled + rest);
        lemma_flat_cells_add(filled, rest);
        assert(filled.drop_last() == layout.rows);
        lemma_written_add(flat_cells(filled), flat_cells(rest));
        lemma_written_blank_rows(rest, width);
        lemma_written_add(flat_cells(layout.rows), fit_row(layout.current, width));
        lemma_written_add(flat_cells(layout.rows), layout.current);
        lemma_written_fit(layout.current, width);
        assert(written(flat_cells(filled)) + Seq::<Cell>::empty() == written(flat_cells(filled)));
    }
}

/// After a change of size the grid has the rows it was asked for, each as
/// wide as it was asked for: what the cells give too little of is made up
/// with erased rows and cells, never taken off the size.
pub proof fn lemma_resized_rows_shape(rows: Seq<Seq<Cell>>, columns: nat, lines: nat)
    ensures
        resized_rows(rows, columns, lines).len() == lines,
        forall|i: int|
            0 <= i < lines ==> (#[trigger] resized_rows(rows, columns, lines)[i]).len() == columns,
{
    if columns > 0 {
        lemma_place_all_keeps(flat_cells(rows), columns, lines);
    }
}

/// A change of size neither invents a character nor changes the order of
/// those it keeps: the written cells of the new rows, in reading order, are
/// the first of the written cells of the old rows. What is lost is lost at
/// the end, where the new rows are full.
pub proof fn lemma_resize_keeps_order(rows: Seq<Seq<Cell>>, columns: nat, lines: nat)
    requires
        columns > 0,
    ensures
        written(flat_cells(resized_rows(rows, columns, lines))).is_prefix_of(
            written(flat_cells(rows)),
        ),
{
    let layout = Layout::start().place_all(flat_cells(rows), columns, lines);
    lemma_place_all_keeps(flat_cells(rows), columns, lines);
    lemma_finish_written(layout, columns, lines);
}

/// While every cell is written, a layout with room for all holds the cells
/// handed to it, in order, and has not reached its limit.
proof fn lemma_place_all_written(cells: Seq<Cell>, width: nat, limit: nat)
    requires
        width > 0,
        cells.len() <= width * limit,
        forall|i: int| 0 <= i < cells.len() ==> (#[trigger] cells[i]).c is Some,
    ensures
        ({
            let layout = Layout::start().place_all(cells, width, limit);
            &&& layout.wf(width, limit)
            &&& !layout.skipping
            &&& layout.cells() == cells
            &&& flat_cells(layout.rows).len() == layout.rows.len() * width
            &&& cells.len() > 0 ==> layout.current.len() > 0 && layout.rows.len() < limit
            &&& cells.len() == 0 ==> layout == Layout::start()
        }),
    decreases cells.len(),
{
    let layout = Layout::start().place_all(cells, width, limit);
    if cells.len() == 0 {
        assert(layout.cells() =~= cells);
        assert(0 * width == 0) by (nonlinear_arith);
    } else {
        let shorter = cells.drop_last();
        lemma_place_all_written(shorter, width, limit);
        let before = Layout::start().place_all(shorter, width, limit);
        assert(before.rows.len() < limit) by {
            if shorter.len() == 0 {
                assert(limit > 0) by (nonlinear_arith)
                    requires
                        1 <= width * limit,
                ;
            }
        }
        assert(cells[cells.len() - 1].c is Some);
        assert forall|i: int| 0 <= i < shorter.len() implies (#[trigger] shorter[i]).c is Some by {
            assert(shorter[i] == cells[i]);
        }
        if before.current.len() == width {
            let turned_rows = before.rows.push(fit_row(before.current, width));
            assert(turned_rows.drop_last() == before.rows);
            assert(fit_row(before.current, width) =~= before.current);
            assert((before.rows.len() + 1) * width == before.rows.len() * width + width)
                by (nonlinear_arith);
            assert(before.rows.len() + 1 < limit) by (nonlinear_arith)
                requires
                    before.rows.len() * width + width < width * limit,
                    width > 0,
            ;
            assert(layout.rows == turned_rows);
            assert(layout.current =~= seq![cells.last()]);
            assert(flat_cells(turned_rows) == flat_cells(before.rows) + before.current);
            assert(before.cells() == shorter);
            assert(layout.cells() =~= shorter.push(cells.last()));
            assert(shorter.push(cells.last()) =~= cells);
        } else {
            assert(cells[cells.len() - 1].c is Some);
            assert(layout.rows == before.rows);
            assert(layout.current == before.current.push(cells.last()));
            assert(before.cells() == shorter);
            assert(layout.cells() =~= shorter.push(cells.last()));
            assert(shorter.push(cells.last()) =~= cells);
        }
    }
}

/// A screen whose cells are all written and that has room for them in its
/// new size keeps every cell: the new rows, read in order, hold the old
/// cells in their order, and erased cells behind them.
pub proof fn lemma_resize_keeps_written_screen(rows: Seq<Seq<Cell>>, columns: nat, lines: nat)
    requires
        columns > 0,
        flat_cells(rows).len() <= columns * lines,
        forall|i: int| 0 <= i < flat_cells(rows).len() ==> (#[trigger] flat_cells(rows)[i]).c is Some,
    ensures
        ({
            let old_cells = flat_cells(rows);
            let new_cells = flat_cells(resized_rows(rows, columns, lines));
            &&& old_cells.is_prefix_of(new_cells)
            &&& forall|i: int| old_cells.len() <= i < new_cells.len() ==> new_cells[i] == Cell::blank()
        }),
{
    let cells = flat_cells(rows);
    let layout = Layout::start().place_all(cells, columns, lines);
    lemma_place_all_written(cells, columns, lines);
    let new_rows = layout.finish(columns, lines);
    let new_cells = flat_cells(new_rows);
    if layout.rows.len() >= lines {
        assert(cells.len() == 0);
        assert(lines == 0);
        assert(new_rows =~= Seq::<Seq<Cell>>::empty());
        assert(cells =~= new_cells);
    } else {
        let filled = layout.rows.push(fit_row(layout.current, columns));
        let rest = new_rows.skip(filled.len() as int);
        assert(new_rows =~= filled + rest);
        lemma_flat_cells_add(filled, rest);
        assert(filled.drop_last() == layout.rows);
        let filler = Seq::new((columns - layout.current.len()) as nat, |i: int| Cell::blank());
        assert(fit_row(layout.current, columns) =~= layout.current + filler);
        assert(flat_cells(filled) =~= cells + filler);
        lemma_blank_rows_flat(rest, columns);
        assert(new_cells =~= cells + filler + flat_cells(rest));
        assert(new_cells.take(cells.len() as int) =~= cells);
    }
}

/// Erased rows hold erased cells only.
proof fn lemma_blank_rows_flat(rows: Seq<Seq<Cell>>, width: nat)
    requires
        forall|i: int| 0 <= i < rows.len() ==> rows[i] == blank_row(width),
    ensures
        forall|i: int| 0 <= i < flat_cells(rows).len() ==> flat_cells(rows)[i] == Cell::blank(),
    decreases rows.len(),
{
    if rows.len() > 0 {
        lemma_blank_rows_flat(rows.drop_last(), width);
    }
}

} // verus!
