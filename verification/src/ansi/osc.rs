//! Operating system commands: `ESC ]`, a payload, and a terminator. The one
//! payload that is read is `2;` followed by a window title.

use vstd::prelude::*;
use crate::ansi::ansi_codes::{BEL, OSC_END, PARAM_SEPARATOR, STRING_TERMINATOR};

verus! {

/// The digit 2, which opens the title marker `2;`.
pub const TITLE_COMMAND: u8 = 0x32;

/// How far the parser is in finding the title.
#[derive(Debug, Clone, Copy, PartialEq, Eq, Structural)]
pub enum OscState {
    /// The marker has not begun.
    Empty,
    /// The `2` of the marker was the last byte.
    TitleStart,
    /// The marker is behind; what follows is the title.
    Title,
}

/// A finished operating system command.
#[derive(Debug, Clone, PartialEq, Eq)]
pub struct OscParseResult {
    pub title: String,
}

/// The parser of one operating system command.
#[derive(Debug)]
pub struct OscParser {
    title: Vec<u8>,
    state: OscState,
}

/// The mathematical value of an [`OscParser`].
pub struct OscView {
    pub title: Seq<u8>,
    pub state: OscState,
}

/// Whether `b` ends an operating system command.
pub open spec fn is_osc_terminator(b: u8) -> bool {
    b == STRING_TERMINATOR || b == BEL || b == OSC_END
}

/// The title bytes as characters, each byte the character of that number.
pub open spec fn title_chars(bytes: Seq<u8>) -> Seq<char> {
    Seq::new(bytes.len(), |i: int| bytes[i] as char)
}

impl OscView {
    /// A parser that has seen nothing yet.
    pub open spec fn start() -> OscView {
        OscView { title: Seq::<u8>::empty(), state: OscState::Empty }
    }

    /// The parser after it was handed `b`. Before the marker `2;` every byte
    /// is dropped; after it every byte up to the terminator belongs to the
    /// title.
    pub open spec fn feed(self, b: u8) -> OscView {
        if is_osc_terminator(b) {
            self
        } else {
            match self.state {
                OscState::Title => OscView { title: self.title.push(b), ..self },
                OscState::TitleStart => if b == PARAM_SEPARATOR {
                    OscView { state: OscState::Title, ..self }
                } else if b == TITLE_COMMAND {
                    self
                } else {
                    OscView { state: OscState::Empty, ..self }
                },
                OscState::Empty => if b == TITLE_COMMAND {
                    OscView { state: OscState::TitleStart, ..self }
                } else {
                    self
                },
            }
        }
    }
}

impl View for OscParser {
    type V = OscView;

    closed spec fn view(&self) -> OscView {
        OscView { title: self.title@, state: self.state }
    }
}

fn chars_of(bytes: &Vec<u8>) -> (s: String)
    ensures
        s@ == title_chars(bytes@),
{
    let mut s = String::new();
    let n: usize = bytes.len();
    let mut i: usize = 0;
    while i < n
        invariant
            i <= n,
            n == bytes@.len(),
            s@ == title_chars(bytes@.take(i as int)),
        decreases n - i,
    {
        s.push(bytes[i] as char);
        assert(s@ =~= title_chars(bytes@.take(i as int + 1)));
        i += 1;
    }
    assert(bytes@.take(n as int) == bytes@);
    s
}

impl OscParser {
    /// A parser that has seen nothing yet.
    pub fn new() -> (parser: OscParser)
        ensures
            parser@ == OscView::start(),
    {
        OscParser { title: Vec::new(), state: OscState::Empty }
    }

    /// Hands the parser the next byte of the command. The answer is the
    /// finished command exactly when the byte is a terminator; its title is
    /// what was gathered since the marker.
    pub fn push(&mut self, b: u8) -> (r: Option<OscParseResult>)
        ensures
            final(self)@ == old(self)@.feed(b),
            r is Some <==> is_osc_terminator(b),
            r matches Some(d) ==> d.title@ == title_chars(old(self)@.title),
    {
        if b == STRING_TERMINATOR || b == BEL || b == OSC_END {
            return Some(OscParseResult { title: chars_of(&self.title) });
        }
        match self.state {
            OscState::Title => {
                self.title.push(b);
            },
            OscState::TitleStart => {
                if b == PARAM_SEPARATOR {
                    self.state = OscState::Title;
                } else if b != TITLE_COMMAND {
                    self.state = OscState::Empty;
                }
            },
            OscState::Empty => {
                if b == TITLE_COMMAND {
                    self.state = OscState::TitleStart;
                }
            },
        }
        None
    }
}

} // verus!
