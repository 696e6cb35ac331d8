//! The escape sequence decoder: bytes in, terminal commands out.
//!
//! The decoder is a state machine that is fed one byte at a time. What it has
//! seen of an unfinished control sequence is kept between calls of
//! [`Ansi::push`], so a sequence may be cut anywhere.

pub mod ansi_codes;
pub mod chunking;
pub mod csi;
pub mod decoder;
pub mod osc;
pub mod params;
pub mod sequences;
pub mod sgr;

use vstd::prelude::*;
use crate::color::Color;

pub use crate::ansi::decoder::Ansi;

verus! {

/// One change to how the following text looks.
#[derive(Debug, Copy, Clone, PartialEq, Eq, Structural)]
pub enum GraphicRendition {
    BackgroundColor(Color),
    ForegroundColor(Color),
    Bold,
    Reset,
    Underline,
    Italic,
}

/// Which part of the cursor's line a clear command names.
#[derive(Debug, Copy, Clone, PartialEq, Eq, Structural)]
pub enum ClearMode {
    ToEnd,
    ToBeginning,
    Both,
}

/// One command of the decoder for the terminal.
#[derive(Debug, Clone, PartialEq, Eq)]
pub enum AnsiOutput {
    /// A run of bytes to print.
    Text(Vec<u8>),
    /// A new window title.
    Title(String),
    Backspace,
    ClearToEndOfLine(ClearMode),
    ClearToEOS,
    ScrollDown,
    /// Absolute cursor position: column, then row, both counted from 0.
    MoveCursor(usize, usize),
    Bell,
    Sgr(GraphicRendition),
    CursorUp(usize),
    CursorDown(usize),
    MoveCursorHorizontal(usize),
    HideCursor,
    ShowCursor,
    CursorBackward(usize),
    CursorForward(usize),
    FillWithE,
    NextLine,
    DeleteCharacters(usize),
}

/// The mathematical value of an [`AnsiOutput`].
pub enum Output {
    Text(Seq<u8>),
    Title(Seq<char>),
    Backspace,
    ClearToEndOfLine(ClearMode),
    ClearToEOS,
    ScrollDown,
    MoveCursor(usize, usize),
    Bell,
    Sgr(GraphicRendition),
    CursorUp(usize),
    CursorDown(usize),
    MoveCursorHorizontal(usize),
    HideCursor,
    ShowCursor,
    CursorBackward(usize),
    CursorForward(usize),
    FillWithE,
    NextLine,
    DeleteCharacters(usize),
}

impl View for AnsiOutput {
    type V = Output;

    open spec fn view(&self) -> Output {
        match self {
            AnsiOutput::Text(bytes) => Output::Text(bytes@),
            AnsiOutput::Title(title) => Output::Title(title@),
            AnsiOutput::Backspace => Output::Backspace,
            AnsiOutput::ClearToEndOfLine(mode) => Output::ClearToEndOfLine(*mode),
            AnsiOutput::ClearToEOS => Output::ClearToEOS,
            AnsiOutput::ScrollDown => Output::ScrollDown,
            AnsiOutput::MoveCursor(x, y) => Output::MoveCursor(*x, *y),
            AnsiOutput::Bell => Output::Bell,
            AnsiOutput::Sgr(rendition) => Output::Sgr(*rendition),
            AnsiOutput::CursorUp(n) => Output::CursorUp(*n),
            AnsiOutput::CursorDown(n) => Output::CursorDown(*n),
            AnsiOutput::MoveCursorHorizontal(x) => Output::MoveCursorHorizontal(*x),
            AnsiOutput::HideCursor => Output::HideCursor,
            AnsiOutput::ShowCursor => Output::ShowCursor,
            AnsiOutput::CursorBackward(n) => Output::CursorBackward(*n),
            AnsiOutput::CursorForward(n) => Output::CursorForward(*n),
            AnsiOutput::FillWithE => Output::FillWithE,
            AnsiOutput::NextLine => Output::NextLine,
            AnsiOutput::DeleteCharacters(n) => Output::DeleteCharacters(*n),
        }
    }
}

/// The values of a list of outputs, in order.
pub open spec fn view_all(outputs: Seq<AnsiOutput>) -> Seq<Output> {
    Seq::new(outputs.len(), |i: int| outputs[i]@)
}

/// Taking values goes through appending one output.
pub proof fn lemma_view_all_push(a: Seq<AnsiOutput>, o: AnsiOutput)
    ensures
        view_all(a.push(o)) == view_all(a).push(o@),
{
    assert(view_all(a.push(o)) =~= view_all(a).push(o@));
}

} // verus!
