use turm::terminal_gui_input::{TerminalGuiInput, TerminalGuiInputMessage};
use turm::terminal_input::{bytes_for, InputEvent, Key, TerminalInput};

fn press(key: Key, initial: char) -> InputEvent {
    InputEvent::Key { key, initial, pressed: true, ctrl: false }
}

fn control(key: Key, initial: char) -> InputEvent {
    InputEvent::Key { key, initial, pressed: true, ctrl: true }
}

fn text(bytes: &[u8]) -> Option<TerminalGuiInputMessage> {
    Some(TerminalGuiInputMessage::Text(bytes.to_vec()))
}

#[test]
fn entered_text_is_sent_as_utf8() {
    let input = TerminalGuiInput::new();
    assert_eq!(
        input.message_for(&InputEvent::Text(String::from("a\u{e9}"))),
        text(&[0x61, 0xc3, 0xa9])
    );
    assert_eq!(input.message_for(&InputEvent::Text(String::new())), text(b""));
}

#[test]
fn keys_with_bytes_of_their_own() {
    let input = TerminalGuiInput::new();
    assert_eq!(input.message_for(&press(Key::Backspace, 'B')), text(b"\x7f"));
    assert_eq!(input.message_for(&press(Key::Enter, 'E')), text(b"\r"));
    assert_eq!(input.message_for(&press(Key::ArrowUp, 'U')), text(b"\x1bOA"));
    assert_eq!(input.message_for(&press(Key::ArrowDown, 'D')), text(b"\x1bOB"));
    assert_eq!(input.message_for(&press(Key::ArrowRight, 'R')), text(b"\x1bOC"));
    assert_eq!(input.message_for(&press(Key::ArrowLeft, 'L')), text(b"\x1bOD"));
    assert_eq!(input.message_for(&press(Key::Tab, 'T')), text(b"\t"));
    assert_eq!(input.message_for(&press(Key::Escape, 'E')), text(b"\x1b"));
    assert_eq!(input.message_for(&control(Key::Enter, 'E')), text(b"\r"));
}

#[test]
fn control_sends_the_control_byte() {
    let input = TerminalGuiInput::new();
    assert_eq!(input.message_for(&control(Key::Other, 'C')), text(&[0x03]));
    assert_eq!(input.message_for(&control(Key::Other, 'c')), text(&[0x03]));
    assert_eq!(input.message_for(&control(Key::Other, 'Z')), text(&[0x1a]));
    assert_eq!(input.message_for(&control(Key::Other, '[')), text(&[0x1b]));
    assert_eq!(input.message_for(&control(Key::Other, '\u{e9}')), text(&[0x89]));
    assert_eq!(input.message_for(&control(Key::Other, '\u{141}')), text(&[0x01]));
}

#[test]
fn events_that_send_nothing() {
    let input = TerminalGuiInput::new();
    assert_eq!(input.message_for(&press(Key::Other, 'A')), None);
    assert_eq!(input.message_for(&InputEvent::Other), None);
    assert_eq!(
        input.message_for(&InputEvent::Key {
            key: Key::Enter,
            initial: 'E',
            pressed: false,
            ctrl: false,
        }),
        None
    );
    assert_eq!(
        input.message_for(&InputEvent::Key {
            key: Key::Other,
            initial: 'C',
            pressed: false,
            ctrl: true,
        }),
        None
    );
}

#[test]
fn the_wheel_asks_to_scroll() {
    let input = TerminalGuiInput::new();
    assert_eq!(
        input.message_for(&InputEvent::MouseWheel { down: true, rows: 3 }),
        Some(TerminalGuiInputMessage::ScrollDown(3))
    );
    assert_eq!(
        input.message_for(&InputEvent::MouseWheel { down: false, rows: 2 }),
        Some(TerminalGuiInputMessage::ScrollUp(2))
    );
    assert_eq!(
        input.message_for(&InputEvent::MouseWheel { down: false, rows: 0 }),
        Some(TerminalGuiInputMessage::ScrollUp(0))
    );
}

#[test]
fn requests_come_in_the_order_of_the_events() {
    let input = TerminalGuiInput::new();
    let events = vec![
        InputEvent::Text(String::from("ls")),
        InputEvent::Other,
        press(Key::Enter, 'E'),
        InputEvent::MouseWheel { down: true, rows: 1 },
        press(Key::Other, 'Q'),
        control(Key::Other, 'D'),
    ];
    assert_eq!(
        input.write_input_to_terminal(&events),
        vec![
            TerminalGuiInputMessage::Text(b"ls".to_vec()),
            TerminalGuiInputMessage::Text(b"\r".to_vec()),
            TerminalGuiInputMessage::ScrollDown(1),
            TerminalGuiInputMessage::Text(vec![0x04]),
        ]
    );
    assert_eq!(input.write_input_to_terminal(&Vec::new()), Vec::new());
}

#[test]
fn the_plain_table_of_keys() {
    assert_eq!(bytes_for(&press(Key::Backspace, 'B'), true), Some(vec![0x08]));
    assert_eq!(bytes_for(&press(Key::ArrowUp, 'U'), true), Some(b"\x1bOA".to_vec()));
    assert_eq!(bytes_for(&press(Key::ArrowRight, 'R'), true), None);
    assert_eq!(bytes_for(&control(Key::ArrowRight, 'R'), true), Some(vec![0x12]));
    assert_eq!(bytes_for(&control(Key::ArrowLeft, 'L'), true), Some(vec![0x0c]));
    assert_eq!(
        bytes_for(&InputEvent::MouseWheel { down: true, rows: 3 }, true),
        None
    );
    let input = TerminalInput::new();
    let events = vec![
        InputEvent::Text(String::from("x")),
        press(Key::Backspace, 'B'),
        InputEvent::MouseWheel { down: true, rows: 1 },
        press(Key::ArrowLeft, 'L'),
        press(Key::Escape, 'E'),
    ];
    assert_eq!(
        input.write_input_to_terminal(&events),
        vec![b"x".to_vec(), vec![0x08], vec![0x1b]]
    );
}
