//! Filling a fresh screen with text, up to the first scroll.

use vstd::prelude::*;
use crate::grid::cell::{Cell, Style};
use crate::grid::size_fits;
use crate::turm::model::{lemma_size_fits, TurmView};
use crate::turm::{CursorPos, CARRIAGE_RETURN, LINE_FEED, TAB};

verus! {

/// Whether a byte of text is printed: every byte but line feed, carriage
/// return and tab.
pub open spec fn is_printable(b: u8) -> bool {
    b != LINE_FEED && b != CARRIAGE_RETURN && b != TAB
}

impl TurmView {
    /// The terminal while a screen that began empty fills up: `count`
    /// printable bytes were typed, row after row, and nothing has scrolled
    /// yet. The cursor stands behind the last byte, and a wrap is pending
    /// exactly when that byte filled the last cell of the screen.
    pub open spec fn filling(self, columns: nat, lines: nat, count: nat) -> bool {
        &&& self.wf()
        &&& self.style == Style::plain()
        &&& self.grid.columns == columns
        &&& self.grid.rows.len() == lines
        &&& self.grid.scrollback.len() == 0
        &&& self.grid.scrolldown.len() == 0
        &&& if count == 0 {
            self.cursor == (CursorPos { x: 0, y: 0 }) && !self.needs_wrap
        } else {
            &&& count == self.cursor.y * columns + self.cursor.x
            &&& 1 <= self.cursor.x <= columns
            &&& self.cursor.y < lines
            &&& self.needs_wrap == (self.cursor.x == columns && self.cursor.y + 1 == lines)
        }
    }
}

/// One more printable byte on a screen that is filling up and is not full
/// yet: the screen goes on filling up.
proof fn lemma_filling_step(turm: TurmView, columns: nat, lines: nat, count: nat, b: u8)
    requires
        columns >= 1,
        lines >= 1,
        turm.filling(columns, lines, count),
        count < columns * lines,
        is_printable(b),
    ensures
        turm.typed(b).filling(columns, lines, count + 1),
{
    let x = turm.cursor.x as int;
    let y = turm.cursor.y as int;
    let next = turm.printed(b);
    lemma_size_fits(columns, lines);
    if count == 0 {
        assert(turm.grid.holds(0, 0));
        assert(next.cursor == (CursorPos { x: 1, y: 0 }));
        assert(0 * columns == 0) by (nonlinear_arith);
    } else {
        assert(y * columns + columns == (y + 1) * columns) by (nonlinear_arith);
        if turm.needs_wrap {
            assert((y + 1) * columns == columns * lines) by (nonlinear_arith)
                requires
                    y + 1 == lines,
            ;
        }
        assert(!turm.needs_wrap);
        if x < columns {
            assert(turm.grid.holds(y, x));
            assert(next.cursor == (CursorPos { x: (x + 1) as usize, y: y as usize }));
        } else {
            assert(y + 1 < lines);
            let placed = turm.next_lined();
            assert(placed.cursor == (CursorPos { x: 0, y: (y + 1) as usize }));
            assert(placed.grid.holds(y + 1, 0));
            assert(next.cursor == (CursorPos { x: 1, y: (y + 1) as usize }));
        }
    }
}

/// Printable bytes typed into a fresh terminal, no more than it has cells,
/// fill the screen up without scrolling.
proof fn lemma_filling(columns: nat, lines: nat, bytes: Seq<u8>)
    requires
        columns >= 1,
        lines >= 1,
        size_fits(columns, lines),
        bytes.len() <= columns * lines,
        forall|i: int| 0 <= i < bytes.len() ==> is_printable(#[trigger] bytes[i]),
    ensures
        TurmView::fresh(columns, lines).typed_all(bytes).filling(columns, lines, bytes.len()),
    decreases bytes.len(),
{
    if bytes.len() > 0 {
        lemma_filling(columns, lines, bytes.drop_last());
        lemma_filling_step(
            TurmView::fresh(columns, lines).typed_all(bytes.drop_last()),
            columns,
            lines,
            (bytes.len() - 1) as nat,
            bytes.last(),
        );
    }
}

/// Typing one printable byte more than a fresh terminal has cells scrolls
/// exactly once: nothing scrolls while the screen fills up, and the byte
/// after the last cell moves the content up by one row and is written at the
/// start of the bottom row.
pub proof fn lemma_overfull_screen_scrolls_once(columns: nat, lines: nat, bytes: Seq<u8>)
    requires
        columns >= 1,
        lines >= 1,
        size_fits(columns, lines),
        bytes.len() == columns * lines + 1,
        forall|i: int| 0 <= i < bytes.len() ==> is_printable(#[trigger] bytes[i]),
    ensures
        ({
            let full = TurmView::fresh(columns, lines).typed_all(bytes.drop_last());
            let over = TurmView::fresh(columns, lines).typed_all(bytes);
            &&& full.grid.scrollback.len() == 0
            &&& over.grid == full.grid.scrolled_up().with_cell(
                lines - 1,
                0,
                Cell { c: Some(bytes.last() as char), style: Style::plain() },
            )
            &&& over.grid.scrollback.len() == 1
            &&& over.grid.rows[lines - 1][0].c == Some(bytes.last() as char)
            &&& over.cursor == (CursorPos { x: 1, y: (lines - 1) as usize })
        }),
{
    let full = TurmView::fresh(columns, lines).typed_all(bytes.drop_last());
    lemma_filling(columns, lines, bytes.drop_last());
    let x = full.cursor.x as int;
    let y = full.cursor.y as int;
    assert(columns * lines >= 1) by (nonlinear_arith)
        requires
            columns >= 1,
            lines >= 1,
    ;
    assert(y == lines - 1 && x == columns) by (nonlinear_arith)
        requires
            columns * lines == y * columns + x,
            1 <= x <= columns,
            0 <= y < lines,
    ;
    assert(full.needs_wrap);
    let scrolled = full.grid.scrolled_up();
    assert(scrolled.holds(lines - 1, 0));
}


} // verus!
