use turm::ansi::{Ansi, AnsiOutput, ClearMode, GraphicRendition};
use turm::color::Color;
use turm::grid::cell::{Cell, Style};
use turm::stream::feed;
use turm::turm::{Cursor, CursorPos, Turm};

fn type_text(turm: &mut Turm, text: &[u8]) {
    for b in text {
        turm.input(*b);
    }
}

fn screen(turm: &Turm) -> Vec<String> {
    let grid = turm.grid();
    let mut rows = Vec::new();
    for row in 0..grid.lines() {
        let mut text = String::new();
        for column in 0..grid.columns() {
            text.push(grid.get(row, column).c.unwrap_or('.'));
        }
        rows.push(text);
    }
    rows
}

fn at(turm: &Turm) -> (usize, usize) {
    let pos = turm.cursor().pos;
    (pos.x, pos.y)
}

fn filled(columns: usize, lines: usize) -> Turm {
    let mut turm = Turm::new(columns, lines);
    let mut next = b'a';
    for row in 0..lines {
        for column in 0..columns {
            turm.move_cursor(column, row);
            turm.input(next);
            next += 1;
        }
    }
    turm.move_cursor(0, 0);
    turm
}

#[test]
fn a_new_terminal() {
    let turm = Turm::new(4, 2);
    assert_eq!(turm.columns(), 4);
    assert_eq!(turm.lines(), 2);
    assert_eq!(at(&turm), (0, 0));
    assert!(turm.show_cursor());
    assert_eq!(turm.title(), "");
    assert_eq!(turm.current_style(), Style::default());
    assert_eq!(screen(&turm), vec!["....", "...."]);
    assert_eq!(Cursor::default().pos, CursorPos { x: 0, y: 0 });
    assert_eq!(CursorPos::default(), CursorPos { x: 0, y: 0 });
}

#[test]
fn text_goes_to_the_cursor() {
    let mut turm = Turm::new(5, 3);
    type_text(&mut turm, b"ab");
    assert_eq!(screen(&turm), vec!["ab...", ".....", "....."]);
    assert_eq!(at(&turm), (2, 0));
    assert_eq!(
        turm.grid().get(0, 1),
        Cell { c: Some('b'), style: Style::default() }
    );
}

#[test]
fn a_byte_is_the_character_of_its_number() {
    let mut turm = Turm::new(2, 1);
    turm.input(0xe9);
    assert_eq!(turm.grid().get(0, 0).c, Some('\u{e9}'));
    assert_eq!(turm.grid().sections().text, "\u{e9} \n");
}

#[test]
fn text_wraps_to_the_next_row() {
    let mut turm = Turm::new(3, 2);
    type_text(&mut turm, b"abc");
    assert_eq!(at(&turm), (3, 0));
    type_text(&mut turm, b"d");
    assert_eq!(screen(&turm), vec!["abc", "d.."]);
    assert_eq!(at(&turm), (1, 1));
    assert_eq!(turm.grid().scrollback_len(), 0);
}

#[test]
fn one_character_more_than_the_screen_holds_scrolls_once() {
    for (columns, lines) in [(3usize, 2usize), (1, 1), (1, 4), (5, 1), (2, 3)] {
        let mut turm = Turm::new(columns, lines);
        for i in 0..columns * lines {
            turm.input(b'a' + (i % 26) as u8);
            assert_eq!(turm.grid().scrollback_len(), 0);
        }
        turm.input(b'Z');
        assert_eq!(turm.grid().scrollback_len(), 1);
        assert_eq!(turm.grid().scrolldown_len(), 0);
        assert_eq!(turm.grid().get(lines - 1, 0).c, Some('Z'));
        assert_eq!(at(&turm), (1, lines - 1));
        for column in 1..columns {
            assert_eq!(turm.grid().get(lines - 1, column).c, None);
        }
    }
}

#[test]
fn the_full_screen_scrolls_with_the_next_character_only() {
    let mut turm = Turm::new(3, 2);
    type_text(&mut turm, b"abcdef");
    assert_eq!(screen(&turm), vec!["abc", "def"]);
    assert_eq!(at(&turm), (3, 1));
    assert_eq!(turm.grid().scrollback_len(), 0);
    type_text(&mut turm, b"g");
    assert_eq!(screen(&turm), vec!["def", "g.."]);
    assert_eq!(turm.grid().scrollback_len(), 1);
}

#[test]
fn a_pending_wrap_outlives_a_carriage_return() {
    let mut turm = Turm::new(3, 2);
    type_text(&mut turm, b"abcdef\r");
    assert_eq!(at(&turm), (0, 1));
    assert_eq!(screen(&turm), vec!["abc", "def"]);
    type_text(&mut turm, b"x");
    assert_eq!(screen(&turm), vec!["def", "x.."]);
    assert_eq!(at(&turm), (1, 1));
}

#[test]
fn line_feed_keeps_the_column() {
    let mut turm = Turm::new(5, 3);
    type_text(&mut turm, b"ab\n");
    assert_eq!(at(&turm), (2, 1));
    type_text(&mut turm, b"c");
    assert_eq!(screen(&turm), vec!["ab...", "..c..", "....."]);
}

#[test]
fn line_feed_in_the_bottom_row_scrolls() {
    let mut turm = Turm::new(3, 2);
    type_text(&mut turm, b"a\nb\n");
    assert_eq!(screen(&turm), vec![".b.", "..."]);
    assert_eq!(at(&turm), (2, 1));
    assert_eq!(turm.grid().scrollback_len(), 1);
}

#[test]
fn carriage_return_goes_to_the_first_column() {
    let mut turm = Turm::new(5, 2);
    type_text(&mut turm, b"abc\rx");
    assert_eq!(screen(&turm), vec!["xbc..", "....."]);
    assert_eq!(at(&turm), (1, 0));
}

#[test]
fn tab_moves_four_columns() {
    let mut turm = Turm::new(9, 1);
    type_text(&mut turm, b"\tx");
    assert_eq!(screen(&turm), vec!["....x...."]);
    assert_eq!(at(&turm), (5, 0));
    type_text(&mut turm, b"\t");
    assert_eq!(at(&turm), (9, 0));
}

#[test]
fn tab_past_the_edge_is_dropped() {
    let mut turm = Turm::new(5, 1);
    type_text(&mut turm, b"ab\t");
    assert_eq!(at(&turm), (2, 0));
}

#[test]
fn a_move_off_the_screen_is_dropped() {
    let columns = 7;
    let mut turm = Turm::new(columns, 3);
    turm.move_cursor(2, 1);
    turm.move_cursor(columns + 5, 0);
    assert_eq!(at(&turm), (2, 1));
    turm.parse(vec![AnsiOutput::MoveCursor(columns + 5, 0)]);
    assert_eq!(at(&turm), (2, 1));
    turm.move_cursor(0, 4);
    assert_eq!(at(&turm), (2, 1));
    turm.move_cursor(usize::MAX, usize::MAX);
    assert_eq!(at(&turm), (2, 1));
}

#[test]
fn a_move_to_just_past_the_edge_is_made() {
    let mut turm = Turm::new(7, 3);
    turm.move_cursor(7, 3);
    assert_eq!(at(&turm), (7, 3));
    turm.input(b'x');
    assert_eq!(screen(&turm), vec![".......", ".......", "x......"]);
    assert_eq!(turm.grid().scrollback_len(), 1);
}

#[test]
fn relative_moves() {
    let mut turm = Turm::new(10, 10);
    turm.move_cursor(5, 5);
    turm.parse(vec![AnsiOutput::CursorUp(2)]);
    assert_eq!(at(&turm), (5, 3));
    turm.parse(vec![AnsiOutput::CursorDown(4)]);
    assert_eq!(at(&turm), (5, 7));
    turm.parse(vec![AnsiOutput::CursorForward(5)]);
    assert_eq!(at(&turm), (10, 7));
    turm.parse(vec![AnsiOutput::CursorBackward(10)]);
    assert_eq!(at(&turm), (0, 7));
    turm.parse(vec![AnsiOutput::MoveCursorHorizontal(3)]);
    assert_eq!(at(&turm), (3, 7));
    turm.parse(vec![AnsiOutput::MoveCursor(4, 1)]);
    assert_eq!(at(&turm), (4, 1));
}

#[test]
fn relative_moves_off_the_screen_are_dropped() {
    let mut turm = Turm::new(10, 10);
    turm.move_cursor(5, 5);
    turm.parse(vec![
        AnsiOutput::CursorUp(6),
        AnsiOutput::CursorDown(6),
        AnsiOutput::CursorForward(6),
        AnsiOutput::CursorBackward(6),
        AnsiOutput::MoveCursorHorizontal(11),
        AnsiOutput::CursorUp(usize::MAX),
        AnsiOutput::CursorDown(usize::MAX),
        AnsiOutput::CursorForward(usize::MAX),
        AnsiOutput::CursorBackward(usize::MAX),
    ]);
    assert_eq!(at(&turm), (5, 5));
}

#[test]
fn backspace_stops_at_the_first_column() {
    let mut turm = Turm::new(4, 2);
    type_text(&mut turm, b"ab");
    turm.backspace();
    assert_eq!(at(&turm), (1, 0));
    turm.backspace();
    turm.backspace();
    assert_eq!(at(&turm), (0, 0));
    turm.move_cursor(0, 1);
    turm.parse(vec![AnsiOutput::Backspace]);
    assert_eq!(at(&turm), (0, 1));
}

#[test]
fn a_rendition_changes_the_style_and_the_cell_under_the_cursor() {
    let mut turm = Turm::new(3, 1);
    type_text(&mut turm, b"ab");
    turm.move_cursor(1, 0);
    turm.color(GraphicRendition::ForegroundColor(Color::red()));
    let red = Style { fg: Color::red(), ..Style::default() };
    assert_eq!(turm.current_style(), red);
    assert_eq!(turm.grid().get(0, 1), Cell { c: Some('b'), style: red });
    assert_eq!(
        turm.grid().get(0, 0),
        Cell { c: Some('a'), style: Style::default() }
    );
    turm.color(GraphicRendition::BackgroundColor(Color::blue()));
    turm.color(GraphicRendition::Bold);
    turm.color(GraphicRendition::Underline);
    turm.color(GraphicRendition::Italic);
    let all = Style {
        fg: Color::red(),
        bg: Color::blue(),
        bold: true,
        underline: true,
        italics: true,
    };
    assert_eq!(turm.current_style(), all);
    assert_eq!(turm.grid().get(0, 1).style, all);
    type_text(&mut turm, b"xy");
    assert_eq!(turm.grid().get(0, 2), Cell { c: Some('y'), style: all });
    turm.color(GraphicRendition::Reset);
    assert_eq!(turm.current_style(), Style::default());
    assert_eq!(turm.grid().get(0, 2), Cell { c: Some('y'), style: all });
    assert_eq!(turm.grid().get(0, 0).style, Style::default());
}

#[test]
fn a_rendition_past_the_edge_changes_the_style_only() {
    let mut turm = Turm::new(2, 2);
    type_text(&mut turm, b"ab");
    assert_eq!(at(&turm), (2, 0));
    turm.parse(vec![AnsiOutput::Sgr(GraphicRendition::Bold)]);
    assert_eq!(
        turm.current_style(),
        Style { bold: true, ..Style::default() }
    );
    assert_eq!(turm.grid().get(0, 1).style, Style::default());
    assert_eq!(turm.grid().get(1, 0).style, Style::default());
}

#[test]
fn an_earlier_cell_keeps_its_style() {
    let mut turm = Turm::new(4, 1);
    turm.color(GraphicRendition::ForegroundColor(Color::green()));
    type_text(&mut turm, b"a");
    turm.color(GraphicRendition::Reset);
    type_text(&mut turm, b"b");
    assert_eq!(turm.grid().get(0, 0).style.fg, Color::green());
    assert_eq!(turm.grid().get(0, 1).style, Style::default());
}

#[test]
fn clear_to_the_end_of_the_line() {
    let mut turm = filled(5, 2);
    turm.color(GraphicRendition::Bold);
    turm.move_cursor(2, 0);
    turm.clear_to_end_of_line();
    assert_eq!(screen(&turm), vec!["ab...", "fghij"]);
    assert_eq!(turm.grid().get(0, 3), Cell::new());
    assert_eq!(at(&turm), (2, 0));
    turm.move_cursor(5, 1);
    turm.clear_to_end_of_line();
    turm.move_cursor(0, 2);
    turm.clear_to_end_of_line();
    assert_eq!(screen(&turm), vec!["ab...", "fghij"]);
}

#[test]
fn every_clear_mode_clears_to_the_end() {
    for mode in [ClearMode::ToEnd, ClearMode::ToBeginning, ClearMode::Both] {
        let mut turm = filled(4, 1);
        turm.move_cursor(1, 0);
        turm.parse(vec![AnsiOutput::ClearToEndOfLine(mode)]);
        assert_eq!(screen(&turm), vec!["a..."]);
    }
}

#[test]
fn clear_to_the_end_of_the_screen() {
    let mut turm = filled(3, 3);
    turm.move_cursor(1, 1);
    turm.clear_to_eos();
    assert_eq!(screen(&turm), vec!["abc", "d..", "..."]);
    assert_eq!(at(&turm), (1, 1));
    let mut turm = filled(3, 3);
    turm.move_cursor(3, 0);
    turm.parse(vec![AnsiOutput::ClearToEOS]);
    assert_eq!(screen(&turm), vec!["abc", "...", "..."]);
    let mut turm = filled(3, 3);
    turm.move_cursor(0, 3);
    turm.clear_to_eos();
    assert_eq!(screen(&turm), vec!["abc", "def", "ghi"]);
    let mut turm = filled(3, 3);
    turm.clear_to_eos();
    assert_eq!(screen(&turm), vec!["...", "...", "..."]);
}

#[test]
fn fill_with_e() {
    let mut turm = Turm::new(3, 2);
    turm.color(GraphicRendition::Bold);
    type_text(&mut turm, b"ab");
    turm.fill_with_e();
    assert_eq!(screen(&turm), vec!["EEE", "EEE"]);
    assert_eq!(at(&turm), (0, 0));
    assert_eq!(
        turm.grid().get(0, 0),
        Cell { c: Some('E'), style: Style::default() }
    );
    assert_eq!(
        turm.current_style(),
        Style { bold: true, ..Style::default() }
    );
}

#[test]
fn next_line() {
    let mut turm = Turm::new(3, 2);
    type_text(&mut turm, b"ab");
    turm.next_line();
    assert_eq!(at(&turm), (0, 1));
    type_text(&mut turm, b"c");
    turm.parse(vec![AnsiOutput::NextLine]);
    assert_eq!(at(&turm), (0, 1));
    assert_eq!(screen(&turm), vec!["c..", "..."]);
    assert_eq!(turm.grid().scrollback_len(), 1);
}

#[test]
fn delete_characters_goes_down_the_column() {
    let mut turm = filled(3, 3);
    turm.color(GraphicRendition::Bold);
    turm.move_cursor(1, 0);
    turm.delete_characters(2);
    assert_eq!(screen(&turm), vec!["a c", "d f", "ghi"]);
    assert_eq!(at(&turm), (1, 0));
    assert_eq!(
        turm.grid().get(1, 1),
        Cell { c: Some(' '), style: Style::default() }
    );
    turm.delete_characters(0);
    assert_eq!(screen(&turm), vec!["a c", "d f", "ghi"]);
}

#[test]
fn delete_characters_down_to_the_bottom_ends_with_a_next_line() {
    let mut turm = filled(3, 3);
    turm.move_cursor(0, 1);
    turm.parse(vec![AnsiOutput::DeleteCharacters(5)]);
    assert_eq!(screen(&turm), vec!["abc", " ef", " hi"]);
    assert_eq!(at(&turm), (0, 2));
    assert_eq!(turm.grid().scrollback_len(), 0);
    turm.delete_characters(usize::MAX);
    assert_eq!(screen(&turm), vec![" ef", " hi", "..."]);
    assert_eq!(at(&turm), (0, 2));
}

#[test]
fn delete_characters_past_the_edge_writes_nothing() {
    let mut turm = filled(2, 2);
    turm.move_cursor(2, 0);
    turm.delete_characters(1);
    assert_eq!(screen(&turm), vec!["ab", "cd"]);
    assert_eq!(at(&turm), (2, 0));
}

#[test]
fn title_bell_and_cursor_visibility() {
    let mut turm = Turm::new(2, 2);
    turm.parse(vec![
        AnsiOutput::Title(String::from("shell")),
        AnsiOutput::Bell,
        AnsiOutput::HideCursor,
    ]);
    assert_eq!(turm.title(), "shell");
    assert!(!turm.show_cursor());
    assert_eq!(screen(&turm), vec!["..", ".."]);
    turm.parse(vec![AnsiOutput::ShowCursor]);
    assert!(turm.show_cursor());
}

#[test]
fn reverse_scroll_brings_a_row_back() {
    let mut turm = Turm::new(2, 2);
    type_text(&mut turm, b"abcde");
    assert_eq!(screen(&turm), vec!["cd", "e."]);
    turm.parse(vec![AnsiOutput::ScrollDown]);
    assert_eq!(screen(&turm), vec!["ab", "cd"]);
    turm.parse(vec![AnsiOutput::ScrollDown]);
    assert_eq!(screen(&turm), vec!["..", "ab"]);
}

#[test]
fn the_wheel_scrolls_through_what_is_there() {
    let mut turm = Turm::new(2, 2);
    type_text(&mut turm, b"abcde");
    turm.scroll_up(1, false);
    assert_eq!(screen(&turm), vec!["cd", "e."]);
    turm.scroll_down(3, false);
    assert_eq!(screen(&turm), vec!["ab", "cd"]);
    turm.scroll_up(3, false);
    assert_eq!(screen(&turm), vec!["cd", "e."]);
}

#[test]
fn resize_takes_the_cursor_along() {
    let mut turm = Turm::new(6, 4);
    type_text(&mut turm, b"abcdef");
    turm.move_cursor(5, 3);
    turm.resize(3, 2);
    assert_eq!(turm.columns(), 3);
    assert_eq!(turm.lines(), 2);
    assert_eq!(at(&turm), (3, 2));
    assert_eq!(screen(&turm), vec!["abc", "def"]);
    turm.resize(8, 8);
    assert_eq!(at(&turm), (3, 2));
}

#[test]
fn commands_are_carried_out_in_order() {
    let mut turm = Turm::new(4, 2);
    turm.parse(vec![
        AnsiOutput::Text(b"ab".to_vec()),
        AnsiOutput::Sgr(GraphicRendition::ForegroundColor(Color::red())),
        AnsiOutput::Text(b"c\r\nd".to_vec()),
        AnsiOutput::MoveCursor(3, 0),
        AnsiOutput::Text(b"e".to_vec()),
    ]);
    assert_eq!(screen(&turm), vec!["abce", "d..."]);
    assert_eq!(turm.grid().get(0, 2).style.fg, Color::red());
    assert_eq!(turm.grid().get(0, 0).style.fg, Color::white());
    assert_eq!(at(&turm), (4, 0));
}

#[test]
fn a_terminal_without_cells_takes_everything() {
    for (columns, lines) in [(0usize, 0usize), (0, 3), (3, 0)] {
        let mut turm = Turm::new(columns, lines);
        let mut ansi = Ansi::new();
        feed(
            &mut ansi,
            &mut turm,
            b"abc\r\n\t\x1b[31mx\x1b[K\x1b[J\x1b#8\x1bE\x1bM\x1b[3P\x1b[5;5H\x1b[A\x1b[B\x1b[C\x1b[D",
        );
        assert_eq!(turm.columns(), columns);
        assert_eq!(turm.lines(), lines);
        assert!(turm.cursor().pos.x <= columns);
        assert!(turm.cursor().pos.y <= lines);
    }
}

#[test]
fn bytes_become_the_screen() {
    let mut turm = Turm::new(10, 3);
    let mut ansi = Ansi::new();
    feed(
        &mut ansi,
        &mut turm,
        b"hi\x1b[31m!\x1b[0m\r\n\x1b]2;demo\x07ok\x1b[1;1HH",
    );
    assert_eq!(screen(&turm), vec!["Hi!.......", "ok........", ".........."]);
    assert_eq!(turm.title(), "demo");
    assert_eq!(turm.grid().get(0, 2).style.fg, Color::red());
    assert_eq!(at(&turm), (1, 0));
}

fn snapshot(turm: &Turm) -> (String, Vec<(Style, usize, usize)>, (usize, usize), String, bool, usize) {
    let sections = turm.grid().sections();
    (
        sections.text,
        sections
            .sections
            .iter()
            .map(|s| (s.style, s.offset, s.len))
            .collect(),
        at(turm),
        turm.title().clone(),
        turm.show_cursor(),
        turm.grid().scrollback_len(),
    )
}

#[test]
fn cutting_the_stream_changes_nothing_on_the_screen() {
    let stream: &[u8] = b"one two three\r\n\x1b[31;42mfour\x08\x07\x1b]2;t\x07five six seven\x1b[2;5H\x1b[Keight\x1b[1 2m\x1b[?25l\x1b[38;5;200mnine\n\n\nten\x1b[3P\x1bMlast";
    let mut whole = Turm::new(7, 4);
    let mut ansi = Ansi::new();
    feed(&mut ansi, &mut whole, stream);
    let expected = snapshot(&whole);
    for cut in 0..=stream.len() {
        let mut turm = Turm::new(7, 4);
        let mut ansi = Ansi::new();
        feed(&mut ansi, &mut turm, &stream[..cut]);
        feed(&mut ansi, &mut turm, &stream[cut..]);
        assert_eq!(snapshot(&turm), expected);
    }
    let mut turm = Turm::new(7, 4);
    let mut ansi = Ansi::new();
    for b in stream {
        feed(&mut ansi, &mut turm, &[*b]);
    }
    assert_eq!(snapshot(&turm), expected);
}
