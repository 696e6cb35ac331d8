//! A selection on the screen: from one position up to another, in reading
//! order.

use vstd::prelude::*;
use crate::grid::cell::Cell;
use crate::turm::Turm;

verus! {

/// A position on the screen: column `x`, row `y`.
#[derive(Debug, Clone, Copy, PartialEq, Eq, Structural)]
pub struct Position {
    pub x: usize,
    pub y: usize,
}

impl Position {
    /// Whether `self` comes before `other` in reading order.
    pub open spec fn before(self, other: Position) -> bool {
        self.y < other.y || (self.y == other.y && self.x < other.x)
    }
}

/// What the user has marked. The two ends are kept as they were set; which
/// of them comes first is found when the selection is read.
#[derive(Debug, Clone, Copy, PartialEq, Eq, Structural)]
pub struct Selection {
    pub start: Position,
    pub end: Position,
    pub active: bool,
}

/// The characters written in `row` from column `from` up to column `to`;
/// erased cells give nothing.
pub open spec fn written_chars(row: Seq<Cell>, from: int, to: int) -> Seq<char>
    decreases to - from,
{
    if to <= from {
        Seq::<char>::empty()
    } else {
        let before = written_chars(row, from, to - 1);
        match row[to - 1].c {
            Some(c) => before.push(c),
            None => before,
        }
    }
}

impl Selection {
    /// The end that comes first in reading order.
    pub open spec fn first(self) -> Position {
        if self.end.before(self.start) {
            self.end
        } else {
            self.start
        }
    }

    /// The end that comes last in reading order.
    pub open spec fn last(self) -> Position {
        if self.end.before(self.start) {
            self.start
        } else {
            self.end
        }
    }

    /// Whether the selection is active and holds the position: the position
    /// is not before the first end and is before the last.
    pub open spec fn holds(self, x: usize, y: usize) -> bool {
        let position = Position { x, y };
        self.active && !position.before(self.first()) && position.before(self.last())
    }

    /// The column at which the selection begins in row `y`.
    pub open spec fn from_in(self, y: int) -> int {
        if y == self.first().y {
            self.first().x as int
        } else {
            0
        }
    }

    /// The column before which the selection ends in row `y` of a screen
    /// `columns` wide.
    pub open spec fn to_in(self, y: int, columns: int) -> int {
        if y == self.last().y && self.last().x < columns {
            self.last().x as int
        } else {
            columns
        }
    }

    /// The text of the selection in row `y`: the written characters of its
    /// columns, and a line end but in its last row.
    pub open spec fn line(self, rows: Seq<Seq<Cell>>, columns: int, y: int) -> Seq<char> {
        let chars = written_chars(rows[y], self.from_in(y), self.to_in(y, columns));
        if y < self.last().y {
            chars.push('\n')
        } else {
            chars
        }
    }

    /// The text of the selection in the rows from its first up to row
    /// `below`.
    pub open spec fn lines_up_to(self, rows: Seq<Seq<Cell>>, columns: int, below: int) -> Seq<char>
        decreases below - self.first().y,
    {
        if below <= self.first().y {
            Seq::<char>::empty()
        } else {
            self.lines_up_to(rows, columns, below - 1) + self.line(rows, columns, below - 1)
        }
    }

    /// The text of the selection on a screen with these rows: nothing while
    /// it is not active, else its rows down to its last or to the last row
    /// of the screen.
    pub open spec fn text(self, rows: Seq<Seq<Cell>>, columns: int) -> Seq<char> {
        if !self.active {
            Seq::<char>::empty()
        } else if self.last().y < rows.len() {
            self.lines_up_to(rows, columns, self.last().y + 1)
        } else {
            self.lines_up_to(rows, columns, rows.len() as int)
        }
    }

    /// A selection that marks nothing.
    pub fn new() -> (selection: Selection)
        ensures
            selection == (Selection {
                start: Position { x: 0, y: 0 },
                end: Position { x: 0, y: 0 },
                active: false,
            }),
    {
        Selection { start: Position { x: 0, y: 0 }, end: Position { x: 0, y: 0 }, active: false }
    }

    /// Ends the selection; its two ends stay as they are.
    pub fn clear(&mut self)
        ensures
            *final(self) == (Selection { active: false, ..*old(self) }),
    {
        self.active = false;
    }

    /// The two ends in reading order.
    pub fn normalized(&self) -> (ends: (Position, Position))
        ensures
            ends.0 == self.first(),
            ends.1 == self.last(),
    {
        if self.start.y > self.end.y || (self.start.y == self.end.y && self.start.x > self.end.x) {
            (self.end, self.start)
        } else {
            (self.start, self.end)
        }
    }

    /// Whether the cell in column `x` of row `y` is selected.
    pub fn is_position_selected(&self, x: usize, y: usize) -> (selected: bool)
        ensures
            selected == self.holds(x, y),
    {
        if !self.active {
            return false;
        }
        let (start, end) = self.normalized();
        if y < start.y || y > end.y {
            return false;
        }
        if y == start.y && y == end.y {
            return x >= start.x && x < end.x;
        } else if y == start.y {
            return x >= start.x;
        } else if y == end.y {
            return x < end.x;
        }
        true
    }

    /// The selected text on the terminal's screen, row by row, with a line
    /// end between two rows.
    pub fn get_selected_text(&self, terminal: &Turm) -> (text: String)
        requires
            terminal.wf(),
        ensures
            text@ == self.text(terminal@.grid.rows, terminal@.grid.columns as int),
    {
        let mut result = String::new();
        if !self.active {
            return result;
        }
        proof {
            terminal.lemma_wf();
        }
        let (start, end) = self.normalized();
        let lines: usize = terminal.lines();
        let columns: usize = terminal.columns();
        let grid = terminal.grid();
        let ghost rows = terminal@.grid.rows;
        let stop: usize = if end.y < lines {
            end.y + 1
        } else {
            lines
        };
        let mut y: usize = start.y;
        while y < stop
            invariant
                grid.wf(),
                grid@ == terminal@.grid,
                rows == grid@.rows,
                rows.len() == lines,
                columns == grid@.columns,
                start == self.first(),
                end == self.last(),
                stop <= lines,
                stop <= end.y + 1,
                start.y <= y,
                y <= stop || y == start.y,
                result@ == self.lines_up_to(rows, columns as int, y as int),
            decreases stop - y,
        {
            let start_x: usize = if y == start.y {
                start.x
            } else {
                0
            };
            let end_x: usize = if y == end.y && end.x < columns {
                end.x
            } else {
                columns
            };
            let ghost done = result@;
            let mut x: usize = start_x;
            while x < end_x
                invariant
                    grid.wf(),
                    rows == grid@.rows,
                    y < rows.len(),
                    columns == grid@.columns,
                    end_x <= columns,
                    start_x <= x,
                    x <= end_x || x == start_x,
                    result@ == done + written_chars(rows[y as int], start_x as int, x as int),
                decreases end_x - x,
            {
                let cell: Cell = grid.get(y, x);
                match cell.c {
                    Some(c) => {
                        result.push(c);
                    },
                    None => {},
                }
                assert(result@ =~= done + written_chars(rows[y as int], start_x as int, x + 1));
                x += 1;
            }
            assert(written_chars(rows[y as int], start_x as int, x as int) == written_chars(
                rows[y as int],
                start_x as int,
                end_x as int,
            ));
            if y < end.y {
                result.push('\n');
            }
            assert(result@ =~= done + self.line(rows, columns as int, y as int));
            y += 1;
        }
        result
    }
}

} // verus!
