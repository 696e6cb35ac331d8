//! The bytes that keys send to the program in the terminal.

use vstd::prelude::*;
use vstd::string::StrSliceExecFns;
use vstd::utf8::encode_utf8;

verus! {

/// The keys that send a byte sequence of their own; `Other` stands for every
/// key that does not.
#[derive(Debug, Clone, Copy, PartialEq, Eq, Structural)]
pub enum Key {
    Backspace,
    Enter,
    ArrowUp,
    ArrowDown,
    ArrowRight,
    ArrowLeft,
    Tab,
    Escape,
    Other,
}

/// What the user did, as the window system reports it.
#[derive(Debug, Clone, PartialEq, Eq)]
pub enum InputEvent {
    /// Text was entered.
    Text(String),
    /// A key went down or up. `initial` is the first character of the key's
    /// name; `ctrl` says whether the control key was held.
    Key { key: Key, initial: char, pressed: bool, ctrl: bool },
    /// The mouse wheel turned by `rows` rows, towards later content where
    /// `down` is set.
    MouseWheel { down: bool, rows: u32 },
    /// Anything else.
    Other,
}

/// The mathematical value of an [`InputEvent`].
pub enum InputEventView {
    Text(Seq<char>),
    Key { key: Key, initial: char, pressed: bool, ctrl: bool },
    MouseWheel { down: bool, rows: u32 },
    Other,
}

impl View for InputEvent {
    type V = InputEventView;

    open spec fn view(&self) -> InputEventView {
        match self {
            InputEvent::Text(text) => InputEventView::Text(text@),
            InputEvent::Key { key, initial, pressed, ctrl } => InputEventView::Key {
                key: *key,
                initial: *initial,
                pressed: *pressed,
                ctrl: *ctrl,
            },
            InputEvent::MouseWheel { down, rows } => InputEventView::MouseWheel {
                down: *down,
                rows: *rows,
            },
            InputEvent::Other => InputEventView::Other,
        }
    }
}

/// The byte that a key sends while the control key is held: the low byte of
/// the first character of its name, without the bits that tell a letter from
/// its control character.
pub open spec fn control_byte(initial: char) -> u8 {
    (((initial as u32) % 256) as u8) & 0x9f
}

/// The bytes that a key sends by itself, for the keys that send any. The
/// arrow keys send `ESC O` and a letter.
pub open spec fn key_bytes(key: Key) -> Option<Seq<u8>> {
    match key {
        Key::Backspace => Some(seq![0x7fu8]),
        Key::Enter => Some(seq![0x0du8]),
        Key::ArrowUp => Some(seq![0x1bu8, 0x4fu8, 0x41u8]),
        Key::ArrowDown => Some(seq![0x1bu8, 0x4fu8, 0x42u8]),
        Key::ArrowRight => Some(seq![0x1bu8, 0x4fu8, 0x43u8]),
        Key::ArrowLeft => Some(seq![0x1bu8, 0x4fu8, 0x44u8]),
        Key::Tab => Some(seq![0x09u8]),
        Key::Escape => Some(seq![0x1bu8]),
        Key::Other => None,
    }
}

/// The bytes that a key sends by itself in the plain table: backspace is the
/// backspace byte, and of the arrow keys only up and down are known.
pub open spec fn plain_key_bytes(key: Key) -> Option<Seq<u8>> {
    match key {
        Key::Backspace => Some(seq![0x08u8]),
        Key::ArrowRight => None,
        Key::ArrowLeft => None,
        _ => key_bytes(key),
    }
}

/// The bytes that an event sends to the program, if it sends any: entered
/// text as UTF-8; for a key that goes down its own bytes, or its control
/// byte where it has none of its own and the control key is held. `plain`
/// chooses the plain table of keys.
pub open spec fn event_bytes(event: InputEventView, plain: bool) -> Option<Seq<u8>> {
    match event {
        InputEventView::Text(text) => Some(encode_utf8(text)),
        InputEventView::Key { key, initial, pressed, ctrl } => {
            let own = if plain {
                plain_key_bytes(key)
            } else {
                key_bytes(key)
            };
            if !pressed {
                None
            } else if own is Some {
                own
            } else if ctrl {
                Some(seq![control_byte(initial)])
            } else {
                None
            }
        },
        _ => None,
    }
}

/// The byte sequences that a list of events sends, in order, by the plain
/// table of keys.
pub open spec fn plain_input(events: Seq<InputEventView>) -> Seq<Seq<u8>>
    decreases events.len(),
{
    if events.len() == 0 {
        Seq::empty()
    } else {
        let before = plain_input(events.drop_last());
        match event_bytes(events.last(), true) {
            Some(bytes) => before.push(bytes),
            None => before,
        }
    }
}

/// The values of a list of events.
pub open spec fn events_view(events: Seq<InputEvent>) -> Seq<InputEventView> {
    Seq::new(events.len(), |i: int| events[i]@)
}

/// The bytes of each sequence.
pub open spec fn bytes_view(chunks: Seq<Vec<u8>>) -> Seq<Seq<u8>> {
    Seq::new(chunks.len(), |i: int| chunks[i]@)
}

fn control_byte_of(initial: char) -> (b: u8)
    ensures
        b == control_byte(initial),
{
    let low: u8 = ((initial as u32) % 256) as u8;
    low & 0x9f
}

fn key_bytes_of(key: Key, plain: bool) -> (bytes: Option<Vec<u8>>)
    ensures
        bytes is Some <==> (if plain {
            plain_key_bytes(key)
        } else {
            key_bytes(key)
        }) is Some,
        bytes matches Some(v) ==> Some(v@) == if plain {
            plain_key_bytes(key)
        } else {
            key_bytes(key)
        },
{
    match key {
        Key::Backspace => if plain {
            Some(vec![0x08u8])
        } else {
            Some(vec![0x7fu8])
        },
        Key::Enter => Some(vec![0x0du8]),
        Key::ArrowUp => Some(vec![0x1bu8, 0x4fu8, 0x41u8]),
        Key::ArrowDown => Some(vec![0x1bu8, 0x4fu8, 0x42u8]),
        Key::ArrowRight => if plain {
            None
        } else {
            Some(vec![0x1bu8, 0x4fu8, 0x43u8])
        },
        Key::ArrowLeft => if plain {
            None
        } else {
            Some(vec![0x1bu8, 0x4fu8, 0x44u8])
        },
        Key::Tab => Some(vec![0x09u8]),
        Key::Escape => Some(vec![0x1bu8]),
        Key::Other => None,
    }
}

/// The bytes that an event sends to the program, if it sends any.
pub fn bytes_for(event: &InputEvent, plain: bool) -> (bytes: Option<Vec<u8>>)
    ensures
        bytes is Some <==> event_bytes(event@, plain) is Some,
        bytes matches Some(v) ==> Some(v@) == event_bytes(event@, plain),
{
    match event {
        InputEvent::Text(text) => Some(text.as_str().as_bytes_vec()),
        InputEvent::Key { key, initial, pressed, ctrl } => {
            if !*pressed {
                return None;
            }
            match key_bytes_of(*key, plain) {
                Some(own) => Some(own),
                None => if *ctrl {
                    Some(vec![control_byte_of(*initial)])
                } else {
                    None
                },
            }
        },
        _ => None,
    }
}

/// Turns what the user does into the bytes for the program in the terminal,
/// by the plain table of keys.
#[derive(Debug, Clone, Copy, PartialEq, Eq, Structural)]
pub struct TerminalInput {}

impl TerminalInput {
    pub fn new() -> (input: TerminalInput) {
        TerminalInput {  }
    }

    /// The byte sequences to send for these events, in order. An event that
    /// sends nothing leaves no entry.
    pub fn write_input_to_terminal(&self, events: &Vec<InputEvent>) -> (sent: Vec<Vec<u8>>)
        ensures
            bytes_view(sent@) == plain_input(events_view(events@)),
    {
        let mut sent: Vec<Vec<u8>> = Vec::new();
        let n: usize = events.len();
        let mut i: usize = 0;
        assert(bytes_view(sent@) =~= plain_input(events_view(events@).take(0)));
        while i < n
            invariant
                i <= n,
                n == events@.len(),
                bytes_view(sent@) == plain_input(events_view(events@).take(i as int)),
            decreases n - i,
        {
            let ghost views = events_view(events@);
            proof {
                let longer = views.take(i as int + 1);
                assert(longer.drop_last() == views.take(i as int));
                assert(longer.last() == events@[i as int]@);
            }
            let ghost before = sent@;
            match bytes_for(&events[i], true) {
                Some(bytes) => {
                    sent.push(bytes);
                    assert(bytes_view(sent@) =~= bytes_view(before).push(bytes@));
                },
                None => {},
            }
            i += 1;
        }
        assert(events_view(events@).take(n as int) == events_view(events@));
        sent
    }
}

} // verus!
