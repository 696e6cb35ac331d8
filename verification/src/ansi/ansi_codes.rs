//! The bytes that the decoder gives a meaning to.

use vstd::prelude::*;

verus! {

/// Escape: opens every control sequence.
pub const ESC: u8 = 0x1b;

/// Backspace.
pub const BS: u8 = 0x08;

/// Bell; also ends an operating system command.
pub const BEL: u8 = 0x07;

/// `[` after an escape opens a control sequence (CSI).
pub const ESC_START: u8 = 0x5b;

/// `#` after an escape opens a one-byte screen command.
pub const HASH: u8 = 0x23;

/// `]` after an escape opens an operating system command (OSC).
pub const OSC_START: u8 = 0x5d;

/// `\` ends an operating system command.
pub const OSC_END: u8 = 0x5c;

/// The eight-bit string terminator; ends an operating system command too.
pub const STRING_TERMINATOR: u8 = 0x9c;

/// `M` after an escape: reverse scroll.
pub const SCROLL_REVERSE: u8 = 0x4d;

/// `D` after an escape: cursor down by one.
pub const CURSOR_DOWNWARD: u8 = 0x44;

/// `E` after an escape: next line.
pub const NEXT_LINE: u8 = 0x45;

/// `8` after `ESC #`: fill the screen with the letter E.
pub const FILL_WITH_E: u8 = 0x38;

/// `;` separates the parameters of a control sequence.
pub const PARAM_SEPARATOR: u8 = 0x3b;

/// `m`: select graphic rendition.
pub const SGR: u8 = 0x6d;

/// `A`
pub const CURSOR_UP: u8 = 0x41;

/// `B`
pub const CURSOR_DOWN: u8 = 0x42;

/// `C`
pub const CURSOR_FORWARD: u8 = 0x43;

/// `D`
pub const CURSOR_BACKWARD: u8 = 0x44;

/// `l`
pub const HIDE_CURSOR: u8 = 0x6c;

/// `h`
pub const SHOW_CURSOR: u8 = 0x68;

/// `K`
pub const CLEAR_LINE: u8 = 0x4b;

/// `J`
pub const CLEAR_EOS: u8 = 0x4a;

/// `P`
pub const DELETE_CHARACTER: u8 = 0x50;

/// `H`
pub const CURSOR_POSITION: u8 = 0x48;

/// `f`, the second spelling of cursor position.
pub const HVP: u8 = 0x66;

/// `G`
pub const CURSOR_HORIZONTAL_POSITION: u8 = 0x47;

} // verus!
