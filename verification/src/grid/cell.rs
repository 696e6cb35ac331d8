//! A single position of the screen: what was written there, and how it looks.

use vstd::prelude::*;
use crate::color::Color;

verus! {

/// How a cell is drawn. A style is a plain value: a cell keeps the style it
/// was written with, whatever happens to the terminal's current style later.
#[derive(Debug, Clone, Copy, PartialEq, Eq, Structural)]
pub struct Style {
    pub fg: Color,
    pub bg: Color,
    pub bold: bool,
    pub underline: bool,
    pub italics: bool,
}

impl Style {
    /// White on black, no attribute set.
    pub open spec fn plain() -> Style {
        Style {
            fg: Color::white(),
            bg: Color::black(),
            bold: false,
            underline: false,
            italics: false,
        }
    }
}

impl Default for Style {
    fn default() -> (s: Style)
        ensures
            s == Style::plain(),
    {
        Style {
            fg: Color::white(),
            bg: Color::black(),
            bold: false,
            underline: false,
            italics: false,
        }
    }
}

/// One cell of the grid. `c` is `None` while nothing was written there
/// (or after an erase), which differs from a written space.
#[derive(Debug, Clone, Copy, PartialEq, Eq, Structural)]
pub struct Cell {
    pub c: Option<char>,
    pub style: Style,
}

impl Cell {
    /// The erased cell: no character, plain style.
    pub open spec fn blank() -> Cell {
        Cell { c: None, style: Style::plain() }
    }

    /// The character a renderer shows for this cell: a space stands in for
    /// an erased cell.
    pub open spec fn shown(self) -> char {
        match self.c {
            Some(c) => c,
            None => ' ',
        }
    }

    /// A fresh, erased cell.
    pub fn new() -> (cell: Cell)
        ensures
            cell == Cell::blank(),
    {
        Cell { c: None, style: Style::default() }
    }
}

impl Default for Cell {
    fn default() -> (cell: Cell)
        ensures
            cell == Cell::blank(),
    {
        Cell::new()
    }
}

} // verus!
