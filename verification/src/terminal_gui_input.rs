//! What the window's events ask for: bytes for the program in the terminal,
//! or a look at rows that have scrolled away.

use vstd::prelude::*;
use crate::terminal_input::{bytes_for, event_bytes, events_view, InputEvent, InputEventView};

verus! {

/// One request of the window.
#[derive(Debug, Clone, PartialEq, Eq)]
pub enum TerminalGuiInputMessage {
    /// Bytes to send to the program.
    Text(Vec<u8>),
    /// Move the content of the screen up by so many rows.
    ScrollUp(u32),
    /// Move the content of the screen down by so many rows.
    ScrollDown(u32),
}

/// The mathematical value of a [`TerminalGuiInputMessage`].
pub enum Message {
    Text(Seq<u8>),
    ScrollUp(u32),
    ScrollDown(u32),
}

impl View for TerminalGuiInputMessage {
    type V = Message;

    open spec fn view(&self) -> Message {
        match self {
            TerminalGuiInputMessage::Text(bytes) => Message::Text(bytes@),
            TerminalGuiInputMessage::ScrollUp(rows) => Message::ScrollUp(*rows),
            TerminalGuiInputMessage::ScrollDown(rows) => Message::ScrollDown(*rows),
        }
    }
}

/// The values of a list of messages.
pub open spec fn messages_view(messages: Seq<TerminalGuiInputMessage>) -> Seq<Message> {
    Seq::new(messages.len(), |i: int| messages[i]@)
}

/// What one event asks for, if anything: the turn of the mouse wheel asks to
/// scroll, down or up; every other event asks to send its bytes, if it has
/// any.
pub open spec fn message_of(event: InputEventView) -> Option<Message> {
    match event {
        InputEventView::MouseWheel { down, rows } => if down {
            Some(Message::ScrollDown(rows))
        } else {
            Some(Message::ScrollUp(rows))
        },
        _ => match event_bytes(event, false) {
            Some(bytes) => Some(Message::Text(bytes)),
            None => None,
        },
    }
}

/// What a list of events asks for, in order.
pub open spec fn messages_of(events: Seq<InputEventView>) -> Seq<Message>
    decreases events.len(),
{
    if events.len() == 0 {
        Seq::empty()
    } else {
        let before = messages_of(events.drop_last());
        match message_of(events.last()) {
            Some(message) => before.push(message),
            None => before,
        }
    }
}

/// Turns the window's events into requests.
#[derive(Debug, Clone, Copy, PartialEq, Eq, Structural)]
pub struct TerminalGuiInput {}

impl TerminalGuiInput {
    pub fn new() -> (input: TerminalGuiInput) {
        TerminalGuiInput {  }
    }

    /// What one event asks for, if anything.
    pub fn message_for(&self, event: &InputEvent) -> (message: Option<TerminalGuiInputMessage>)
        ensures
            message is Some <==> message_of(event@) is Some,
            message matches Some(m) ==> Some(m@) == message_of(event@),
    {
        match event {
            InputEvent::MouseWheel { down, rows } => if *down {
                Some(TerminalGuiInputMessage::ScrollDown(*rows))
            } else {
                Some(TerminalGuiInputMessage::ScrollUp(*rows))
            },
            _ => match bytes_for(event, false) {
                Some(bytes) => Some(TerminalGuiInputMessage::Text(bytes)),
                None => None,
            },
        }
    }

    /// The requests of these events, in order. An event that asks for
    /// nothing leaves no entry.
    pub fn write_input_to_terminal(&self, events: &Vec<InputEvent>) -> (sent: Vec<
        TerminalGuiInputMessage,
    >)
        ensures
            messages_view(sent@) == messages_of(events_view(events@)),
    {
        let mut sent: Vec<TerminalGuiInputMessage> = Vec::new();
        let n: usize = events.len();
        let mut i: usize = 0;
        assert(messages_view(sent@) =~= messages_of(events_view(events@).take(0)));
        while i < n
            invariant
                i <= n,
                n == events@.len(),
                messages_view(sent@) == messages_of(events_view(events@).take(i as int)),
            decreases n - i,
        {
            let ghost views = events_view(events@);
            proof {
                let longer = views.take(i as int + 1);
                assert(longer.drop_last() == views.take(i as int));
                assert(longer.last() == events@[i as int]@);
            }
            let ghost before = sent@;
            match self.message_for(&events[i]) {
                Some(message) => {
                    sent.push(message);
                    assert(messages_view(sent@) =~= messages_view(before).push(message@));
                },
                None => {},
            }
            i += 1;
        }
        assert(events_view(events@).take(n as int) == events_view(events@));
        sent
    }
}

} // verus!
