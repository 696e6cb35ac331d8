//! What the terminal is, as a mathematical value, and what each command
//! makes of it.

use vstd::prelude::*;
use crate::ansi::{GraphicRendition, Output};
use crate::grid::cell::{Cell, Style};
use crate::grid::{size_fits, GridView};
use crate::turm::{CursorPos, CARRIAGE_RETURN, LINE_FEED, TAB, TAB_STRIDE};

verus! {

/// The mathematical value of a [`Turm`].
pub struct TurmView {
    pub cursor: CursorPos,
    pub style: Style,
    pub needs_wrap: bool,
    pub show_cursor: bool,
    pub title: Seq<char>,
    pub grid: GridView,
}

impl TurmView {
    pub open spec fn columns(self) -> nat {
        self.grid.columns
    }

    pub open spec fn lines(self) -> nat {
        self.grid.lines()
    }

    /// The grid is in order and the cursor is on it or just past its edge.
    pub open spec fn wf(self) -> bool {
        &&& self.grid.wf()
        &&& self.cursor.x <= self.columns()
        &&& self.cursor.y <= self.lines()
    }

    /// A terminal that nothing was written to.
    pub open spec fn fresh(columns: nat, lines: nat) -> TurmView {
        TurmView {
            cursor: CursorPos { x: 0, y: 0 },
            style: Style::plain(),
            needs_wrap: false,
            show_cursor: true,
            title: Seq::empty(),
            grid: GridView::blank(columns, lines),
        }
    }

    /// The index of the bottom row; 0 where there is no row.
    pub open spec fn last_line(self) -> usize {
        if self.lines() > 0 {
            (self.lines() - 1) as usize
        } else {
            0
        }
    }

    /// The terminal with the cursor at `(x, y)`, or unchanged where that is
    /// further out than just past the edge: a move off the screen is
    /// dropped, not cut short.
    pub open spec fn moved(self, x: int, y: int) -> TurmView {
        if 0 <= x <= self.columns() && 0 <= y <= self.lines() {
            TurmView { cursor: CursorPos { x: x as usize, y: y as usize }, ..self }
        } else {
            self
        }
    }

    /// The terminal with the cursor in column `x` of the row below. From the
    /// bottom row the cursor stays in that row and the content moves up.
    pub open spec fn lowered(self, x: usize) -> TurmView {
        if self.cursor.y + 1 >= self.lines() {
            TurmView {
                cursor: CursorPos { x, y: self.last_line() },
                grid: self.grid.scrolled_up(),
                ..self
            }
        } else {
            TurmView { cursor: CursorPos { x, y: (self.cursor.y + 1) as usize }, ..self }
        }
    }

    /// After a line feed: one row down in the same column.
    pub open spec fn line_fed(self) -> TurmView {
        self.lowered(self.cursor.x)
    }

    /// After a next-line command: the first column of the row below.
    pub open spec fn next_lined(self) -> TurmView {
        self.lowered(0)
    }

    /// After a printable byte.
    ///
    /// A wrap that is pending is made first: the cursor goes to the first
    /// column of the bottom row, the content moves up, and the wrap is no
    /// longer pending. Then a cursor past the last column goes to the row
    /// below. The byte is written at the cursor with the current style, where
    /// there is a cell, and the cursor moves one column on. Where that takes
    /// it past the last column of the bottom row, a wrap is pending.
    pub open spec fn printed(self, b: u8) -> TurmView {
        let homed = if self.needs_wrap {
            TurmView {
                cursor: CursorPos { x: 0, y: self.last_line() },
                grid: self.grid.scrolled_up(),
                needs_wrap: false,
                ..self
            }
        } else {
            self
        };
        let placed = if homed.cursor.x + 1 > homed.columns() {
            homed.next_lined()
        } else {
            homed
        };
        let written = if placed.grid.holds(placed.cursor.y as int, placed.cursor.x as int) {
            TurmView {
                grid: placed.grid.with_cell(
                    placed.cursor.y as int,
                    placed.cursor.x as int,
                    Cell { c: Some(b as char), style: placed.style },
                ),
                ..placed
            }
        } else {
            placed
        };
        let advanced = written.moved(written.cursor.x + 1, written.cursor.y as int);
        TurmView {
            needs_wrap: advanced.needs_wrap || (advanced.cursor.x == advanced.columns()
                && advanced.cursor.y + 1 == advanced.lines()),
            ..advanced
        }
    }

    /// After one byte of text: a line feed, a carriage return and a tab move
    /// the cursor, every other byte is printed.
    pub open spec fn typed(self, b: u8) -> TurmView {
        if b == LINE_FEED {
            self.line_fed()
        } else if b == CARRIAGE_RETURN {
            self.moved(0, self.cursor.y as int)
        } else if b == TAB {
            self.moved(self.cursor.x + TAB_STRIDE, self.cursor.y as int)
        } else {
            self.printed(b)
        }
    }

    /// After a run of text, byte by byte.
    pub open spec fn typed_all(self, bytes: Seq<u8>) -> TurmView
        decreases bytes.len(),
    {
        if bytes.len() == 0 {
            self
        } else {
            self.typed_all(bytes.drop_last()).typed(bytes.last())
        }
    }

    /// The current style after a rendition.
    pub open spec fn restyled(style: Style, rendition: GraphicRendition) -> Style {
        match rendition {
            GraphicRendition::ForegroundColor(color) => Style { fg: color, ..style },
            GraphicRendition::BackgroundColor(color) => Style { bg: color, ..style },
            GraphicRendition::Bold => Style { bold: true, ..style },
            GraphicRendition::Underline => Style { underline: true, ..style },
            GraphicRendition::Italic => Style { italics: true, ..style },
            GraphicRendition::Reset => Style::plain(),
        }
    }

    /// After a rendition: the current style changes, and the cell under the
    /// cursor, if there is one, takes the new style at once.
    pub open spec fn colored(self, rendition: GraphicRendition) -> TurmView {
        let style = Self::restyled(self.style, rendition);
        if self.grid.holds(self.cursor.y as int, self.cursor.x as int) {
            let cell = self.grid.rows[self.cursor.y as int][self.cursor.x as int];
            TurmView {
                style,
                grid: self.grid.with_cell(
                    self.cursor.y as int,
                    self.cursor.x as int,
                    Cell { style, ..cell },
                ),
                ..self
            }
        } else {
            TurmView { style, ..self }
        }
    }

    /// After a backspace: one column back, but never out of the row.
    pub open spec fn backspaced(self) -> TurmView {
        if self.cursor.x >= 1 {
            TurmView { cursor: CursorPos { x: (self.cursor.x - 1) as usize, ..self.cursor }, ..self }
        } else {
            self
        }
    }

    /// After a clear to the end of the line: the cells of the cursor's row
    /// from the cursor on are erased.
    pub open spec fn cleared_to_end_of_line(self) -> TurmView {
        if self.cursor.y < self.lines() {
            TurmView {
                grid: self.grid.with_row_filled(
                    self.cursor.y as int,
                    self.cursor.x as int,
                    Cell::blank(),
                ),
                ..self
            }
        } else {
            self
        }
    }

    /// After a clear to the end of the screen: every cell from the cursor on,
    /// in reading order, is erased.
    pub open spec fn cleared_to_eos(self) -> TurmView {
        TurmView {
            grid: GridView {
                rows: Seq::new(
                    self.lines(),
                    |r: int|
                        Seq::new(
                            self.columns(),
                            |c: int|
                                if r > self.cursor.y || (r == self.cursor.y && c >= self.cursor.x) {
                                    Cell::blank()
                                } else {
                                    self.grid.rows[r][c]
                                },
                        ),
                ),
                ..self.grid
            },
            ..self
        }
    }

    /// After the screen alignment pattern: every cell holds the letter E in
    /// the plain style, and the cursor is at the top left.
    pub open spec fn filled_with_e(self) -> TurmView {
        TurmView {
            cursor: CursorPos { x: 0, y: 0 },
            grid: GridView {
                rows: Seq::new(
                    self.lines(),
                    |r: int|
                        Seq::new(self.columns(), |c: int| Cell { c: Some('E'), style: Style::plain() }),
                ),
                ..self.grid
            },
            ..self
        }
    }

    /// The rows with a space written into the cursor's column, in the
    /// cursor's row and the rows below it, `n` rows in all as far as there
    /// are rows. Each of these cells keeps its style.
    pub open spec fn spaced_rows(self, n: usize) -> Seq<Seq<Cell>> {
        Seq::new(
            self.lines(),
            |r: int|
                if self.cursor.y <= r < self.cursor.y + n && self.cursor.x < self.columns() {
                    self.grid.rows[r].update(
                        self.cursor.x as int,
                        Cell { c: Some(' '), ..self.grid.rows[r][self.cursor.x as int] },
                    )
                } else {
                    self.grid.rows[r]
                },
        )
    }

    /// After a delete of `n` characters: spaces are written down the
    /// cursor's column, as [`TurmView::spaced_rows`] says. Where the `n` rows
    /// reach the bottom of the screen, a next-line follows.
    pub open spec fn deleted(self, n: usize) -> TurmView {
        let spaced = TurmView {
            grid: GridView { rows: self.spaced_rows(n), ..self.grid },
            ..self
        };
        if self.cursor.y < self.lines() <= self.cursor.y + n {
            spaced.next_lined()
        } else {
            spaced
        }
    }

    /// After a change of size: the grid is laid out anew, and a cursor that
    /// would be further out than just past the new edge is brought back to
    /// there.
    pub open spec fn resized(self, columns: nat, lines: nat) -> TurmView {
        TurmView {
            cursor: CursorPos {
                x: if self.cursor.x <= columns {
                    self.cursor.x
                } else {
                    columns as usize
                },
                y: if self.cursor.y <= lines {
                    self.cursor.y
                } else {
                    lines as usize
                },
            },
            grid: self.grid.resized(columns, lines),
            ..self
        }
    }

    /// After one command of the decoder.
    ///
    /// Every clear mode clears to the end of the line. A relative move that
    /// would leave the screen, at either side, is dropped.
    pub open spec fn apply(self, output: Output) -> TurmView {
        match output {
            Output::Text(bytes) => self.typed_all(bytes),
            Output::Title(title) => TurmView { title, ..self },
            Output::Backspace => self.backspaced(),
            Output::ClearToEndOfLine(_) => self.cleared_to_end_of_line(),
            Output::ClearToEOS => self.cleared_to_eos(),
            Output::ScrollDown => TurmView { grid: self.grid.scrolled_down(), ..self },
            Output::MoveCursor(x, y) => self.moved(x as int, y as int),
            Output::Bell => self,
            Output::Sgr(rendition) => self.colored(rendition),
            Output::CursorUp(n) => self.moved(self.cursor.x as int, self.cursor.y - n),
            Output::CursorDown(n) => self.moved(self.cursor.x as int, self.cursor.y + n),
            Output::MoveCursorHorizontal(x) => self.moved(x as int, self.cursor.y as int),
            Output::HideCursor => TurmView { show_cursor: false, ..self },
            Output::ShowCursor => TurmView { show_cursor: true, ..self },
            Output::CursorBackward(n) => self.moved(self.cursor.x - n, self.cursor.y as int),
            Output::CursorForward(n) => self.moved(self.cursor.x + n, self.cursor.y as int),
            Output::FillWithE => self.filled_with_e(),
            Output::NextLine => self.next_lined(),
            Output::DeleteCharacters(n) => self.deleted(n),
        }
    }

    /// After a list of commands, in order.
    pub open spec fn apply_all(self, outputs: Seq<Output>) -> TurmView
        decreases outputs.len(),
    {
        if outputs.len() == 0 {
            self
        } else {
            self.apply_all(outputs.drop_last()).apply(outputs.last())
        }
    }
}

/// What a size that fits says of each of its two numbers.
pub proof fn lemma_size_fits(columns: nat, lines: nat)
    requires
        size_fits(columns, lines),
    ensures
        4 * lines <= usize::MAX,
        lines > 0 ==> 4 * (columns + 1) <= usize::MAX,
{
    assert((columns + 1) * lines >= lines) by (nonlinear_arith);
    if lines > 0 {
        assert((columns + 1) * lines >= columns + 1) by (nonlinear_arith)
            requires
                lines >= 1,
        ;
    }
}

/// Scrolling up changes neither the width nor the number of rows.
pub proof fn lemma_scroll_up_keeps_size(grid: GridView, steps: nat, force: bool)
    ensures
        grid.scroll_up_by(steps, force).columns == grid.columns,
        grid.scroll_up_by(steps, force).rows.len() == grid.rows.len(),
    decreases steps,
{
    if !(steps == 0 || (!force && grid.scrolldown.len() == 0)) {
        lemma_scroll_up_keeps_size(grid.scrolled_up(), (steps - 1) as nat, force);
    }
}

/// Scrolling down changes neither the width nor the number of rows.
pub proof fn lemma_scroll_down_keeps_size(grid: GridView, steps: nat, force: bool)
    ensures
        grid.scroll_down_by(steps, force).columns == grid.columns,
        grid.scroll_down_by(steps, force).rows.len() == grid.rows.len(),
    decreases steps,
{
    if !(steps == 0 || (!force && grid.scrollback.len() == 0)) {
        lemma_scroll_down_keeps_size(grid.scrolled_down(), (steps - 1) as nat, force);
    }
}


/// One forced move up is a single step.
pub proof fn lemma_scroll_up_once(grid: GridView)
    ensures
        grid.scroll_up_by(1, true) == grid.scrolled_up(),
{
    assert(grid.scrolled_up().scroll_up_by(0, true) == grid.scrolled_up());
}

/// One forced move down is a single step.
pub proof fn lemma_scroll_down_once(grid: GridView)
    ensures
        grid.scroll_down_by(1, true) == grid.scrolled_down(),
{
    assert(grid.scrolled_down().scroll_down_by(0, true) == grid.scrolled_down());
}

/// Moving the content by one row keeps a grid in order, with the same
/// width and the same number of rows.
pub proof fn lemma_scrolled_wf(grid: GridView)
    requires
        grid.wf(),
    ensures
        grid.scrolled_up().wf(),
        grid.scrolled_up().columns == grid.columns,
        grid.scrolled_up().rows.len() == grid.rows.len(),
        grid.scrolled_down().wf(),
        grid.scrolled_down().columns == grid.columns,
        grid.scrolled_down().rows.len() == grid.rows.len(),
{
    let up = grid.scrolled_up();
    assert forall|i: int| 0 <= i < up.rows.len() implies (#[trigger] up.rows[i]).len()
        == up.columns by {
        if i + 1 < up.rows.len() {
            assert(up.rows[i] == grid.rows[i + 1]);
        }
    }
    let down = grid.scrolled_down();
    assert forall|i: int| 0 <= i < down.rows.len() implies (#[trigger] down.rows[i]).len()
        == down.columns by {
        if i > 0 {
            assert(down.rows[i] == grid.rows[i - 1]);
        }
    }
}

/// Typing a byte keeps a terminal in order.
pub proof fn lemma_typed_keeps_wf(turm: TurmView, b: u8)
    requires
        turm.wf(),
    ensures
        turm.typed(b).wf(),
        turm.typed(b).columns() == turm.columns(),
        turm.typed(b).lines() == turm.lines(),
{
    lemma_size_fits(turm.columns(), turm.lines());
    lemma_scrolled_wf(turm.grid);
    if b != LINE_FEED && b != CARRIAGE_RETURN && b != TAB {
        let homed = if turm.needs_wrap {
            TurmView {
                cursor: CursorPos { x: 0, y: turm.last_line() },
                grid: turm.grid.scrolled_up(),
                needs_wrap: false,
                ..turm
            }
        } else {
            turm
        };
        assert(homed.wf());
        lemma_scrolled_wf(homed.grid);
        let placed = if homed.cursor.x + 1 > homed.columns() {
            homed.next_lined()
        } else {
            homed
        };
        assert(placed.wf());
    }
}

/// Typing text keeps a terminal in order.
pub proof fn lemma_typed_all_keeps_wf(turm: TurmView, bytes: Seq<u8>)
    requires
        turm.wf(),
    ensures
        turm.typed_all(bytes).wf(),
        turm.typed_all(bytes).columns() == turm.columns(),
        turm.typed_all(bytes).lines() == turm.lines(),
    decreases bytes.len(),
{
    if bytes.len() > 0 {
        lemma_typed_all_keeps_wf(turm, bytes.drop_last());
        lemma_typed_keeps_wf(turm.typed_all(bytes.drop_last()), bytes.last());
    }
}

/// Whatever the command, a terminal in order stays in order, and keeps its
/// size: the cursor never gets further out than just past the edge of the
/// screen, and every row keeps the width of the screen.
pub proof fn lemma_apply_keeps_wf(turm: TurmView, output: Output)
    requires
        turm.wf(),
    ensures
        turm.apply(output).wf(),
        turm.apply(output).columns() == turm.columns(),
        turm.apply(output).lines() == turm.lines(),
{
    lemma_size_fits(turm.columns(), turm.lines());
    lemma_scrolled_wf(turm.grid);
    match output {
        Output::Text(bytes) => {
            lemma_typed_all_keeps_wf(turm, bytes);
        },
        Output::DeleteCharacters(n) => {
            let spaced = TurmView {
                grid: GridView { rows: turm.spaced_rows(n), ..turm.grid },
                ..turm
            };
            assert(spaced.wf());
            lemma_scrolled_wf(spaced.grid);
        },
        _ => {},
    }
}

/// Whatever the commands, a terminal in order stays in order.
pub proof fn lemma_apply_all_keeps_wf(turm: TurmView, outputs: Seq<Output>)
    requires
        turm.wf(),
    ensures
        turm.apply_all(outputs).wf(),
        turm.apply_all(outputs).columns() == turm.columns(),
        turm.apply_all(outputs).lines() == turm.lines(),
    decreases outputs.len(),
{
    if outputs.len() > 0 {
        lemma_apply_all_keeps_wf(turm, outputs.drop_last());
        lemma_apply_keeps_wf(turm.apply_all(outputs.drop_last()), outputs.last());
    }
}

/// A move to a position further out than just past the edge of the screen is
/// dropped: the terminal stays as it is, and the cursor is not taken to the
/// edge instead.
pub proof fn lemma_move_off_screen_is_dropped(turm: TurmView, x: usize, y: usize)
    requires
        x > turm.columns() || y > turm.lines(),
    ensures
        turm.moved(x as int, y as int) == turm,
        turm.apply(Output::MoveCursor(x, y)) == turm,
{
}


/// A change of the current style reaches no cell but the one under the
/// cursor, and of that cell the style only: what was written keeps the style
/// it was written with.
pub proof fn lemma_color_keeps_written_cells(turm: TurmView, rendition: GraphicRendition)
    requires
        turm.wf(),
    ensures
        turm.colored(rendition).cursor == turm.cursor,
        turm.colored(rendition).grid.rows.len() == turm.grid.rows.len(),
        forall|r: int, c: int|
            turm.grid.holds(r, c) ==> (#[trigger] turm.colored(rendition).grid.rows[r][c]).c
                == turm.grid.rows[r][c].c,
        forall|r: int, c: int|
            turm.grid.holds(r, c) && !(r == turm.cursor.y && c == turm.cursor.x) ==> (
            #[trigger] turm.colored(rendition).grid.rows[r][c]) == turm.grid.rows[r][c],
{
}

} // verus!
