//! The logic core of a terminal emulator.
//!
//! Bytes from the program in the terminal go through the decoder
//! ([`ansi::Ansi`]), which turns text and escape sequences into commands, and
//! the commands go to the terminal ([`turm::Turm`]), which keeps the cursor,
//! the current style and the screen buffer ([`grid::Grid`]). A renderer reads
//! the screen as text with style sections ([`grid::Grid::sections`]).
//! [`stream::feed`] does both steps at once.
//!
//! Every type has a mathematical value, its view, and every operation states
//! what it does to that value. No operation panics, whatever bytes arrive.

pub mod ansi;
pub mod color;
pub mod grid;
pub mod selection;
pub mod stream;
pub mod terminal_gui_input;
pub mod terminal_input;
pub mod turm;
pub mod utf8;
