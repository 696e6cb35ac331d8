//! The terminal: a cursor, a current style and the grid they write to.
//!
//! [`TurmView`] states what every command does to the terminal;
//! [`Turm`] does it.

pub mod filling;
pub mod model;

use vstd::prelude::*;
use crate::ansi::{view_all, AnsiOutput, GraphicRendition};
use crate::grid::cell::{Cell, Style};
use crate::grid::{scroll_steps, size_fits, Grid, GridView};
use crate::turm::model::{
    lemma_scroll_down_keeps_size, lemma_scroll_down_once, lemma_scroll_up_keeps_size,
    lemma_scroll_up_once, lemma_size_fits,
};

pub use crate::turm::model::TurmView;

verus! {

/// Line feed.
pub const LINE_FEED: u8 = 0x0a;

/// Carriage return.
pub const CARRIAGE_RETURN: u8 = 0x0d;

/// Horizontal tab.
pub const TAB: u8 = 0x09;

/// The number of columns that a tab moves the cursor by.
pub const TAB_STRIDE: usize = 4;

/// A position on the screen: column `x`, row `y`.
#[derive(Debug, Clone, Copy, PartialEq, Eq, Structural)]
pub struct CursorPos {
    pub x: usize,
    pub y: usize,
}

impl Default for CursorPos {
    fn default() -> (pos: CursorPos)
        ensures
            pos == (CursorPos { x: 0, y: 0 }),
    {
        CursorPos { x: 0, y: 0 }
    }
}

/// The cursor.
#[derive(Debug, Clone, Copy, PartialEq, Eq, Structural)]
pub struct Cursor {
    pub pos: CursorPos,
}

impl Default for Cursor {
    fn default() -> (cursor: Cursor)
        ensures
            cursor.pos == (CursorPos { x: 0, y: 0 }),
    {
        Cursor { pos: CursorPos { x: 0, y: 0 } }
    }
}

/// The terminal.
#[derive(Debug)]
pub struct Turm {
    cursor: Cursor,
    show_cursor: bool,
    grid: Grid,
    title: String,
    current_style: Style,
    lines: usize,
    columns: usize,
    needs_wrap: bool,
}

impl View for Turm {
    type V = TurmView;

    closed spec fn view(&self) -> TurmView {
        TurmView {
            cursor: self.cursor.pos,
            style: self.current_style,
            needs_wrap: self.needs_wrap,
            show_cursor: self.show_cursor,
            title: self.title@,
            grid: self.grid@,
        }
    }
}

impl Turm {
    /// Whether the terminal is in order. Every terminal that this module
    /// hands out is, and every operation keeps it so.
    pub closed spec fn wf(&self) -> bool {
        &&& self@.wf()
        &&& self.grid.wf()
        &&& self.columns == self.grid@.columns
        &&& self.lines == self.grid@.lines()
    }

    /// A terminal in order has a value in order.
    pub proof fn lemma_wf(&self)
        requires
            self.wf(),
        ensures
            self@.wf(),
    {
    }

    /// A terminal of the given size that nothing was written to.
    pub fn new(columns: usize, lines: usize) -> (turm: Turm)
        requires
            size_fits(columns as nat, lines as nat),
        ensures
            turm.wf(),
            turm@ == TurmView::fresh(columns as nat, lines as nat),
    {
        Turm {
            cursor: Cursor::default(),
            grid: Grid::new(columns, lines),
            title: String::new(),
            current_style: Style::default(),
            lines,
            columns,
            needs_wrap: false,
            show_cursor: true,
        }
    }

    /// The cursor.
    pub fn cursor(&self) -> (cursor: Cursor)
        ensures
            cursor.pos == self@.cursor,
    {
        self.cursor
    }

    /// Whether the cursor is to be drawn.
    pub fn show_cursor(&self) -> (shown: bool)
        ensures
            shown == self@.show_cursor,
    {
        self.show_cursor
    }

    /// The window title.
    pub fn title(&self) -> (title: &String)
        ensures
            title@ == self@.title,
    {
        &self.title
    }

    /// The grid.
    pub fn grid(&self) -> (grid: &Grid)
        requires
            self.wf(),
        ensures
            grid@ == self@.grid,
            grid.wf(),
    {
        &self.grid
    }

    /// The number of rows.
    pub fn lines(&self) -> (n: usize)
        requires
            self.wf(),
        ensures
            n == self@.lines(),
    {
        self.lines
    }

    /// The number of columns.
    pub fn columns(&self) -> (n: usize)
        requires
            self.wf(),
        ensures
            n == self@.columns(),
    {
        self.columns
    }

    /// The style that the next character is written with.
    pub fn current_style(&self) -> (style: Style)
        ensures
            style == self@.style,
    {
        self.current_style
    }

    /// Moves the cursor to column `x` of row `y`. A position further out
    /// than just past the edge of the screen leaves the cursor where it is.
    pub fn move_cursor(&mut self, x: usize, y: usize)
        requires
            old(self).wf(),
        ensures
            final(self).wf(),
            final(self)@ == old(self)@.moved(x as int, y as int),
    {
        if x > self.columns || y > self.lines {
            return ;
        }
        self.cursor.pos.x = x;
        self.cursor.pos.y = y;
    }

    /// Moves the content of the screen up, as [`Grid::scroll_up`] does.
    pub fn scroll_up(&mut self, delta: u32, force: bool)
        requires
            old(self).wf(),
        ensures
            final(self).wf(),
            final(self)@ == (TurmView {
                grid: old(self)@.grid.scroll_up_by(scroll_steps(delta), force),
                ..old(self)@
            }),
    {
        proof {
            lemma_scroll_up_keeps_size(self.grid@, scroll_steps(delta), force);
        }
        self.grid.scroll_up(delta, force);
    }

    /// Moves the content of the screen down, as [`Grid::scroll_down`] does.
    pub fn scroll_down(&mut self, delta: u32, force: bool)
        requires
            old(self).wf(),
        ensures
            final(self).wf(),
            final(self)@ == (TurmView {
                grid: old(self)@.grid.scroll_down_by(scroll_steps(delta), force),
                ..old(self)@
            }),
    {
        proof {
            lemma_scroll_down_keeps_size(self.grid@, scroll_steps(delta), force);
        }
        self.grid.scroll_down(delta, force);
    }
}

impl Turm {
    /// Moves the content up by one row, whether or not a row is waiting
    /// below.
    fn scroll_one_up(&mut self)
        requires
            old(self).wf(),
        ensures
            final(self).wf(),
            final(self)@ == (TurmView { grid: old(self)@.grid.scrolled_up(), ..old(self)@ }),
    {
        proof {
            lemma_scroll_up_once(self.grid@);
        }
        self.grid.scroll_up(1, true);
    }

    /// Takes the cursor to column `x` of the row below, moving the content up
    /// at the bottom row.
    fn lower(&mut self, x: usize)
        requires
            old(self).wf(),
            x <= old(self)@.columns(),
        ensures
            final(self).wf(),
            final(self)@ == old(self)@.lowered(x),
    {
        proof {
            lemma_size_fits(self@.columns(), self@.lines());
        }
        if self.cursor.pos.y + 1 >= self.lines {
            let last: usize = if self.lines > 0 {
                self.lines - 1
            } else {
                0
            };
            self.cursor.pos = CursorPos { x, y: last };
            self.scroll_one_up();
        } else {
            self.cursor.pos = CursorPos { x, y: self.cursor.pos.y + 1 };
        }
    }

    /// Moves the cursor to the first column of the next row; at the bottom
    /// row the content moves up instead.
    pub fn next_line(&mut self)
        requires
            old(self).wf(),
        ensures
            final(self).wf(),
            final(self)@ == old(self)@.next_lined(),
    {
        self.lower(0);
    }

    /// Prints one byte other than line feed, carriage return and tab.
    fn print(&mut self, c: u8)
        requires
            old(self).wf(),
        ensures
            final(self).wf(),
            final(self)@ == old(self)@.printed(c),
    {
        proof {
            lemma_size_fits(self@.columns(), self@.lines());
        }
        if self.needs_wrap {
            let last: usize = if self.lines > 0 {
                self.lines - 1
            } else {
                0
            };
            self.cursor.pos = CursorPos { x: 0, y: last };
            self.scroll_one_up();
            self.needs_wrap = false;
        }
        if self.cursor.pos.x >= self.columns {
            self.lower(0);
        }
        let x: usize = self.cursor.pos.x;
        let y: usize = self.cursor.pos.y;
        if y < self.lines && x < self.columns {
            self.grid.set(y, x, Cell { c: Some(c as char), style: self.current_style });
        }
        if x < self.columns {
            self.cursor.pos.x = x + 1;
        }
        if self.cursor.pos.x == self.columns && self.cursor.pos.y + 1 == self.lines {
            self.needs_wrap = true;
        }
    }

    /// Takes in one byte of text. A line feed moves the cursor one row down,
    /// or the content up at the bottom row; a carriage return moves it to the
    /// first column; a tab moves it four columns on, if the row is that wide;
    /// any other byte is printed at the cursor.
    pub fn input(&mut self, c: u8)
        requires
            old(self).wf(),
        ensures
            final(self).wf(),
            final(self)@ == old(self)@.typed(c),
    {
        if c == LINE_FEED {
            let x: usize = self.cursor.pos.x;
            self.lower(x);
        } else if c == CARRIAGE_RETURN {
            let y: usize = self.cursor.pos.y;
            self.move_cursor(0, y);
        } else if c == TAB {
            let y: usize = self.cursor.pos.y;
            match self.cursor.pos.x.checked_add(TAB_STRIDE) {
                Some(x) => {
                    self.move_cursor(x, y);
                },
                None => {},
            }
        } else {
            self.print(c);
        }
    }

    /// Moves the cursor one column back, unless it is in the first column.
    pub fn backspace(&mut self)
        requires
            old(self).wf(),
        ensures
            final(self).wf(),
            final(self)@ == old(self)@.backspaced(),
    {
        if self.cursor.pos.x >= 1 {
            self.cursor.pos.x -= 1;
        }
    }

    /// Changes the current style, and gives the new style to the cell under
    /// the cursor where there is one.
    pub fn color(&mut self, c: GraphicRendition)
        requires
            old(self).wf(),
        ensures
            final(self).wf(),
            final(self)@ == old(self)@.colored(c),
    {
        let style: Style = match c {
            GraphicRendition::ForegroundColor(color) => Style { fg: color, ..self.current_style },
            GraphicRendition::BackgroundColor(color) => Style { bg: color, ..self.current_style },
            GraphicRendition::Bold => Style { bold: true, ..self.current_style },
            GraphicRendition::Underline => Style { underline: true, ..self.current_style },
            GraphicRendition::Italic => Style { italics: true, ..self.current_style },
            GraphicRendition::Reset => Style::default(),
        };
        self.current_style = style;
        let x: usize = self.cursor.pos.x;
        let y: usize = self.cursor.pos.y;
        if y < self.lines && x < self.columns {
            let cell: Cell = self.grid.get(y, x);
            self.grid.set(y, x, Cell { style, ..cell });
        }
    }

    /// Erases the cursor's row from the cursor to its end.
    pub fn clear_to_end_of_line(&mut self)
        requires
            old(self).wf(),
        ensures
            final(self).wf(),
            final(self)@ == old(self)@.cleared_to_end_of_line(),
    {
        if self.cursor.pos.y < self.lines {
            self.grid.fill_row(self.cursor.pos.y, self.cursor.pos.x, Cell::new());
        }
    }

    /// Erases the screen from the cursor to its end.
    pub fn clear_to_eos(&mut self)
        requires
            old(self).wf(),
        ensures
            final(self).wf(),
            final(self)@ == old(self)@.cleared_to_eos(),
    {
        let ghost before = self@;
        let x: usize = self.cursor.pos.x;
        let y: usize = self.cursor.pos.y;
        if y < self.lines {
            self.grid.fill_row(y, x, Cell::new());
            let mut r: usize = y + 1;
            while r < self.lines
                invariant
                    self.wf(),
                    before.wf(),
                    y < r <= self.lines,
                    x == before.cursor.x,
                    y == before.cursor.y,
                    self.lines == before.lines(),
                    self@.grid.columns == before.grid.columns,
                    self@.grid.rows.len() == before.grid.rows.len(),
                    self@ == (TurmView { grid: self@.grid, ..before }),
                    self@.grid == (GridView { rows: self@.grid.rows, ..before.grid }),
                    forall|i: int|
                        0 <= i < before.lines() ==> #[trigger] self@.grid.rows[i] == if i < r {
                            before.cleared_to_eos().grid.rows[i]
                        } else {
                            before.grid.rows[i]
                        },
                decreases self.lines - r,
            {
                self.grid.fill_row(r, 0, Cell::new());
                assert(self@.grid.rows[r as int] =~= before.cleared_to_eos().grid.rows[r as int]);
                r += 1;
            }
            assert(self@.grid.rows =~= before.cleared_to_eos().grid.rows);
        } else {
            assert(before.grid.rows =~= before.cleared_to_eos().grid.rows) by {
                assert forall|i: int| 0 <= i < before.lines() implies #[trigger] before.grid.rows[i]
                    =~= before.cleared_to_eos().grid.rows[i] by {}
            }
        }
    }

    /// Fills the screen with the letter E in the plain style and takes the
    /// cursor to the top left.
    pub fn fill_with_e(&mut self)
        requires
            old(self).wf(),
        ensures
            final(self).wf(),
            final(self)@ == old(self)@.filled_with_e(),
    {
        let ghost before = self@;
        let letter = Cell { c: Some('E'), style: Style::default() };
        let mut r: usize = 0;
        while r < self.lines
            invariant
                self.wf(),
                before.wf(),
                r <= self.lines,
                letter == (Cell { c: Some('E'), style: Style::plain() }),
                self.lines == before.lines(),
                self@.grid.columns == before.grid.columns,
                self@.grid.rows.len() == before.grid.rows.len(),
                self@ == (TurmView { grid: self@.grid, ..before }),
                self@.grid == (GridView { rows: self@.grid.rows, ..before.grid }),
                forall|i: int|
                    0 <= i < r ==> #[trigger] self@.grid.rows[i]
                        == before.filled_with_e().grid.rows[i],
            decreases self.lines - r,
        {
            self.grid.fill_row(r, 0, letter);
            assert(self@.grid.rows[r as int] =~= before.filled_with_e().grid.rows[r as int]);
            r += 1;
        }
        assert(self@.grid.rows =~= before.filled_with_e().grid.rows);
        self.cursor.pos = CursorPos { x: 0, y: 0 };
    }

    /// Writes a space into the cursor's column, in the cursor's row and the
    /// rows below it, `n` rows in all as far as there are rows; each cell
    /// keeps its style. Where the `n` rows reach the bottom of the screen, a
    /// next-line follows.
    pub fn delete_characters(&mut self, n: usize)
        requires
            old(self).wf(),
        ensures
            final(self).wf(),
            final(self)@ == old(self)@.deleted(n),
    {
        let ghost before = self@;
        let x: usize = self.cursor.pos.x;
        let y: usize = self.cursor.pos.y;
        let lines: usize = self.lines;
        let end: usize = match y.checked_add(n) {
            Some(sum) => if sum < lines {
                sum
            } else {
                lines
            },
            None => lines,
        };
        let ghost target = before.spaced_rows(n);
        if x < self.columns {
            let mut r: usize = y;
            while r < end
                invariant
                    self.wf(),
                    before.wf(),
                    y <= r,
                    r <= end || end <= y,
                    end <= lines,
                    lines == self.lines,
                    lines == before.lines(),
                    x < before.columns(),
                    x == before.cursor.x,
                    y == before.cursor.y,
                    end == if y + n < lines { (y + n) as usize } else { lines },
                    target == before.spaced_rows(n),
                    self@.grid.columns == before.grid.columns,
                    self@.grid.rows.len() == before.grid.rows.len(),
                    self@ == (TurmView { grid: self@.grid, ..before }),
                    self@.grid == (GridView { rows: self@.grid.rows, ..before.grid }),
                    forall|i: int|
                        0 <= i < lines ==> #[trigger] self@.grid.rows[i] == if y <= i < r {
                            target[i]
                        } else {
                            before.grid.rows[i]
                        },
                decreases end - r,
            {
                let cell: Cell = self.grid.get(r, x);
                self.grid.set(r, x, Cell { c: Some(' '), ..cell });
                r += 1;
            }
        }
        assert(self@.grid.rows =~= target);
        if y < lines && end == lines {
            self.lower(0);
        }
    }

    /// Gives the terminal a new size: the grid is laid out anew, as
    /// [`Grid::resize`] does, and the cursor stays on the screen or just
    /// past its edge.
    pub fn resize(&mut self, new_columns: usize, new_lines: usize)
        requires
            old(self).wf(),
            size_fits(new_columns as nat, new_lines as nat),
        ensures
            final(self).wf(),
            final(self)@ == old(self)@.resized(new_columns as nat, new_lines as nat),
    {
        self.grid.resize(new_columns, new_lines);
        self.columns = new_columns;
        self.lines = new_lines;
        if self.cursor.pos.x > new_columns {
            self.cursor.pos.x = new_columns;
        }
        if self.cursor.pos.y > new_lines {
            self.cursor.pos.y = new_lines;
        }
    }

    /// Carries out one command.
    fn apply_output(&mut self, output: &AnsiOutput)
        requires
            old(self).wf(),
        ensures
            final(self).wf(),
            final(self)@ == old(self)@.apply(output@),
    {
        let x: usize = self.cursor.pos.x;
        let y: usize = self.cursor.pos.y;
        match output {
            AnsiOutput::Text(bytes) => {
                let ghost before = self@;
                let n: usize = bytes.len();
                let mut i: usize = 0;
                while i < n
                    invariant
                        self.wf(),
                        i <= n,
                        n == bytes@.len(),
                        self@ == before.typed_all(bytes@.take(i as int)),
                    decreases n - i,
                {
                    proof {
                        let longer = bytes@.take(i as int + 1);
                        assert(longer.drop_last() == bytes@.take(i as int));
                        assert(longer.last() == bytes@[i as int]);
                    }
                    self.input(bytes[i]);
                    i += 1;
                }
                assert(bytes@.take(n as int) == bytes@);
            },
            AnsiOutput::Title(title) => {
                self.title = title.clone();
            },
            AnsiOutput::Backspace => self.backspace(),
            AnsiOutput::ClearToEndOfLine(_mode) => self.clear_to_end_of_line(),
            AnsiOutput::ClearToEOS => self.clear_to_eos(),
            AnsiOutput::ScrollDown => {
                proof {
                    lemma_scroll_down_once(self.grid@);
                }
                self.grid.scroll_down(1, true);
            },
            AnsiOutput::MoveCursor(to_x, to_y) => self.move_cursor(*to_x, *to_y),
            AnsiOutput::Bell => {},
            AnsiOutput::Sgr(rendition) => self.color(*rendition),
            AnsiOutput::CursorUp(amount) => {
                if y >= *amount {
                    self.move_cursor(x, y - *amount);
                }
            },
            AnsiOutput::CursorDown(amount) => {
                match y.checked_add(*amount) {
                    Some(to_y) => self.move_cursor(x, to_y),
                    None => {},
                }
            },
            AnsiOutput::MoveCursorHorizontal(to_x) => self.move_cursor(*to_x, y),
            AnsiOutput::HideCursor => {
                self.show_cursor = false;
            },
            AnsiOutput::ShowCursor => {
                self.show_cursor = true;
            },
            AnsiOutput::CursorBackward(amount) => {
                if *amount <= x {
                    self.move_cursor(x - *amount, y);
                }
            },
            AnsiOutput::CursorForward(amount) => {
                match x.checked_add(*amount) {
                    Some(to_x) => self.move_cursor(to_x, y),
                    None => {},
                }
            },
            AnsiOutput::FillWithE => self.fill_with_e(),
            AnsiOutput::NextLine => self.next_line(),
            AnsiOutput::DeleteCharacters(n) => self.delete_characters(*n),
        }
    }

    /// Carries out the commands of the decoder, in order.
    pub fn parse(&mut self, ansi: Vec<AnsiOutput>)
        requires
            old(self).wf(),
        ensures
            final(self).wf(),
            final(self)@ == old(self)@.apply_all(view_all(ansi@)),
    {
        let ghost before = self@;
        let ghost outputs = view_all(ansi@);
        let n: usize = ansi.len();
        let mut i: usize = 0;
        while i < n
            invariant
                self.wf(),
                i <= n,
                n == ansi@.len(),
                outputs == view_all(ansi@),
                self@ == before.apply_all(outputs.take(i as int)),
            decreases n - i,
        {
            proof {
                let longer = outputs.take(i as int + 1);
                assert(longer.drop_last() == outputs.take(i as int));
                assert(longer.last() == ansi@[i as int]@);
            }
            self.apply_output(&ansi[i]);
            i += 1;
        }
        assert(outputs.take(n as int) == outputs);
    }
}


} // verus!
