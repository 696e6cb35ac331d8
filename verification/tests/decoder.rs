use turm::ansi::csi::{CSIParser, CSIParserError};
use turm::ansi::osc::OscParser;
use turm::ansi::params::{parse_params, parse_usize_param};
use turm::ansi::sgr::color_8bit;
use turm::ansi::{Ansi, AnsiOutput, ClearMode, GraphicRendition};
use turm::color::Color;

fn decode(bytes: &[u8]) -> Vec<AnsiOutput> {
    let mut ansi = Ansi::new();
    ansi.push(bytes)
}

fn fg(color: Color) -> AnsiOutput {
    AnsiOutput::Sgr(GraphicRendition::ForegroundColor(color))
}

fn bg(color: Color) -> AnsiOutput {
    AnsiOutput::Sgr(GraphicRendition::BackgroundColor(color))
}

fn text(bytes: &[u8]) -> AnsiOutput {
    AnsiOutput::Text(bytes.to_vec())
}

#[test]
fn red_foreground_is_one_output() {
    assert_eq!(decode(b"\x1b[31m"), vec![fg(Color::red())]);
}

#[test]
fn cursor_position_counts_from_one() {
    assert_eq!(decode(b"\x1b[2;5H"), vec![AnsiOutput::MoveCursor(4, 1)]);
}

#[test]
fn plain_text_is_one_run() {
    assert_eq!(decode(b"hello"), vec![text(b"hello")]);
}

#[test]
fn nothing_in_nothing_out() {
    assert_eq!(decode(b""), vec![]);
}

#[test]
fn backspace_and_bell_close_the_run_before_them() {
    assert_eq!(
        decode(b"a\x08b\x07c"),
        vec![
            text(b"a"),
            AnsiOutput::Backspace,
            text(b"b"),
            AnsiOutput::Bell,
            text(b"c"),
        ]
    );
}

#[test]
fn escape_closes_the_run_even_without_a_command() {
    assert_eq!(decode(b"a\x1bzb"), vec![text(b"a"), text(b"b")]);
}

#[test]
fn single_byte_escapes() {
    assert_eq!(decode(b"\x1bM"), vec![AnsiOutput::ScrollDown]);
    assert_eq!(decode(b"\x1bD"), vec![AnsiOutput::CursorDown(1)]);
    assert_eq!(decode(b"\x1bE"), vec![AnsiOutput::NextLine]);
    assert_eq!(decode(b"\x1bQ"), vec![]);
}

#[test]
fn hash_knows_one_command() {
    assert_eq!(decode(b"\x1b#8"), vec![AnsiOutput::FillWithE]);
    assert_eq!(decode(b"\x1b#7x"), vec![text(b"x")]);
}

#[test]
fn title_follows_the_marker() {
    assert_eq!(
        decode(b"\x1b]2;my title\x07"),
        vec![AnsiOutput::Title(String::from("my title"))]
    );
    assert_eq!(
        decode(b"\x1b]0;x2;yz\x9c"),
        vec![AnsiOutput::Title(String::from("yz"))]
    );
    assert_eq!(
        decode(b"\x1b]22;ab\\"),
        vec![AnsiOutput::Title(String::from("ab"))]
    );
}

#[test]
fn title_keeps_every_byte_after_the_marker() {
    assert_eq!(
        decode(b"\x1b]2;a2b;2;c\x07"),
        vec![AnsiOutput::Title(String::from("a2b;2;c"))]
    );
}

#[test]
fn title_is_empty_without_the_marker() {
    assert_eq!(
        decode(b"\x1b]2x;ab\x07"),
        vec![AnsiOutput::Title(String::new())]
    );
    assert_eq!(decode(b"\x1b]\x07"), vec![AnsiOutput::Title(String::new())]);
}

#[test]
fn title_bytes_become_characters_of_that_number() {
    assert_eq!(
        decode(&[0x1b, 0x5d, 0x32, 0x3b, 0xe9, 0x07]),
        vec![AnsiOutput::Title(String::from("\u{e9}"))]
    );
}

#[test]
fn parameter_after_intermediate_gives_the_sequence_up() {
    assert_eq!(decode(b"\x1b[1 2m"), vec![text(b"m")]);
}

#[test]
fn bytes_outside_the_grammar_are_passed_over_in_a_sequence() {
    assert_eq!(decode(b"\x1b[3\x011m"), vec![fg(Color::red())]);
}

#[test]
fn sgr_single_parameters() {
    assert_eq!(
        decode(b"\x1b[m"),
        vec![AnsiOutput::Sgr(GraphicRendition::Reset)]
    );
    assert_eq!(
        decode(b"\x1b[0m"),
        vec![AnsiOutput::Sgr(GraphicRendition::Reset)]
    );
    assert_eq!(
        decode(b"\x1b[1m"),
        vec![AnsiOutput::Sgr(GraphicRendition::Bold)]
    );
    assert_eq!(
        decode(b"\x1b[3m"),
        vec![AnsiOutput::Sgr(GraphicRendition::Italic)]
    );
    assert_eq!(
        decode(b"\x1b[4m"),
        vec![AnsiOutput::Sgr(GraphicRendition::Underline)]
    );
}

#[test]
fn sgr_palette() {
    assert_eq!(decode(b"\x1b[38;5;1m"), vec![fg(Color::red())]);
    assert_eq!(decode(b"\x1b[48;5;8m"), vec![bg(Color::gray())]);
    assert_eq!(
        decode(b"\x1b[38;5;16m"),
        vec![fg(Color::from_rgb(0, 0, 0))]
    );
    assert_eq!(
        decode(b"\x1b[38;5;231m"),
        vec![fg(Color::from_rgb(192, 20, 3))]
    );
    assert_eq!(decode(b"\x1b[38;5;257m"), vec![fg(Color::red())]);
}

#[test]
fn sgr_palette_entry_without_color_gives_nothing() {
    assert_eq!(decode(b"\x1b[38;5;232m"), vec![]);
    assert_eq!(decode(b"\x1b[48;5;255m"), vec![]);
}

#[test]
fn sgr_truecolor() {
    assert_eq!(
        decode(b"\x1b[38;2;1;2;3m"),
        vec![fg(Color::from_rgb(1, 2, 3))]
    );
    assert_eq!(
        decode(b"\x1b[48;2;300;2;3m"),
        vec![bg(Color::from_rgb(44, 2, 3))]
    );
}

#[test]
fn sgr_truecolor_cut_short_is_a_color_list() {
    assert_eq!(decode(b"\x1b[38;2;1m"), vec![fg(Color::white())]);
}

#[test]
fn sgr_color_list() {
    assert_eq!(
        decode(b"\x1b[31;42m"),
        vec![fg(Color::red()), bg(Color::green())]
    );
    assert_eq!(decode(b"\x1b[0;31m"), vec![fg(Color::red())]);
    assert_eq!(decode(b"\x1b[39m"), vec![fg(Color::white())]);
    assert_eq!(decode(b"\x1b[90m"), vec![]);
    assert_eq!(decode(b"\x1b[1;34m"), vec![fg(Color::blue())]);
}

#[test]
fn clear_line_modes() {
    assert_eq!(
        decode(b"\x1b[K"),
        vec![AnsiOutput::ClearToEndOfLine(ClearMode::ToEnd)]
    );
    assert_eq!(
        decode(b"\x1b[0K"),
        vec![AnsiOutput::ClearToEndOfLine(ClearMode::ToEnd)]
    );
    assert_eq!(
        decode(b"\x1b[1K"),
        vec![AnsiOutput::ClearToEndOfLine(ClearMode::ToBeginning)]
    );
    assert_eq!(
        decode(b"\x1b[2K"),
        vec![AnsiOutput::ClearToEndOfLine(ClearMode::Both)]
    );
    assert_eq!(
        decode(b"\x1b[7K"),
        vec![AnsiOutput::ClearToEndOfLine(ClearMode::Both)]
    );
}

#[test]
fn clear_to_end_of_screen() {
    assert_eq!(decode(b"\x1b[J"), vec![AnsiOutput::ClearToEOS]);
    assert_eq!(decode(b"\x1b[2J"), vec![AnsiOutput::ClearToEOS]);
}

#[test]
fn cursor_position_defaults() {
    assert_eq!(decode(b"\x1b[H"), vec![AnsiOutput::MoveCursor(0, 0)]);
    assert_eq!(decode(b"\x1b[;5H"), vec![AnsiOutput::MoveCursor(4, 0)]);
    assert_eq!(decode(b"\x1b[3f"), vec![AnsiOutput::MoveCursor(0, 2)]);
    assert_eq!(decode(b"\x1b[0;0H"), vec![AnsiOutput::MoveCursor(0, 0)]);
}

#[test]
fn relative_moves_default_to_one() {
    assert_eq!(decode(b"\x1b[A"), vec![AnsiOutput::CursorUp(1)]);
    assert_eq!(decode(b"\x1b[B"), vec![AnsiOutput::CursorDown(1)]);
    assert_eq!(decode(b"\x1b[C"), vec![AnsiOutput::CursorForward(1)]);
    assert_eq!(decode(b"\x1b[D"), vec![AnsiOutput::CursorBackward(1)]);
    assert_eq!(decode(b"\x1b[12A"), vec![AnsiOutput::CursorUp(12)]);
    assert_eq!(decode(b"\x1b[3B"), vec![AnsiOutput::CursorDown(3)]);
    assert_eq!(decode(b"\x1b[4C"), vec![AnsiOutput::CursorForward(4)]);
    assert_eq!(decode(b"\x1b[5D"), vec![AnsiOutput::CursorBackward(5)]);
    assert_eq!(
        decode(b"\x1b[G"),
        vec![AnsiOutput::MoveCursorHorizontal(1)]
    );
    assert_eq!(
        decode(b"\x1b[7G"),
        vec![AnsiOutput::MoveCursorHorizontal(7)]
    );
}

#[test]
fn cursor_visibility() {
    assert_eq!(decode(b"\x1b[?25l"), vec![AnsiOutput::HideCursor]);
    assert_eq!(decode(b"\x1b[?25h"), vec![AnsiOutput::ShowCursor]);
}

#[test]
fn delete_characters_default() {
    assert_eq!(decode(b"\x1b[P"), vec![AnsiOutput::DeleteCharacters(1)]);
    assert_eq!(decode(b"\x1b[3P"), vec![AnsiOutput::DeleteCharacters(3)]);
}

#[test]
fn parameter_that_is_no_number_counts_as_zero() {
    assert_eq!(decode(b"\x1b[?25A"), vec![AnsiOutput::CursorUp(0)]);
    assert_eq!(decode(b"\x1b[1:2A"), vec![AnsiOutput::CursorUp(0)]);
}

#[test]
fn parameter_too_large_counts_as_zero() {
    assert_eq!(
        decode(b"\x1b[99999999999999999999999999999999999999999A"),
        vec![AnsiOutput::CursorUp(0)]
    );
}

#[test]
fn unknown_final_byte_gives_nothing() {
    assert_eq!(decode(b"\x1b[5zx"), vec![text(b"x")]);
}

#[test]
fn a_sequence_may_span_calls() {
    let mut ansi = Ansi::new();
    assert_eq!(ansi.push(b"ab\x1b"), vec![text(b"ab")]);
    assert_eq!(ansi.push(b"[3"), vec![]);
    assert_eq!(ansi.push(b"1"), vec![]);
    assert_eq!(ansi.push(b"mcd"), vec![fg(Color::red()), text(b"cd")]);
}

#[test]
fn a_title_may_span_calls() {
    let mut ansi = Ansi::new();
    assert_eq!(ansi.push(b"\x1b]2"), vec![]);
    assert_eq!(ansi.push(b";ti"), vec![]);
    assert_eq!(ansi.push(b"tle"), vec![]);
    assert_eq!(
        ansi.push(b"\x07"),
        vec![AnsiOutput::Title(String::from("title"))]
    );
}

#[test]
fn a_cut_through_text_gives_two_runs() {
    let mut ansi = Ansi::new();
    assert_eq!(ansi.push(b"ab"), vec![text(b"ab")]);
    assert_eq!(ansi.push(b"cd"), vec![text(b"cd")]);
    assert_eq!(decode(b"abcd"), vec![text(b"abcd")]);
}

fn flatten(outputs: &Vec<AnsiOutput>) -> Vec<AnsiOutput> {
    let mut flat = Vec::new();
    for output in outputs {
        match output {
            AnsiOutput::Text(bytes) => {
                for b in bytes {
                    flat.push(AnsiOutput::Text(vec![*b]));
                }
            }
            other => flat.push(other.clone()),
        }
    }
    flat
}

#[test]
fn cutting_the_stream_changes_no_output() {
    let stream: &[u8] =
        b"one\x1b[31;42mtwo\x08\x07\x1b]2;t\x07three\x1b[2;5H\x1b#8\x1bM\x1b[1 2m\x1b[?25lend";
    let whole = decode(stream);
    for cut in 0..=stream.len() {
        let mut ansi = Ansi::new();
        let mut pieces = ansi.push(&stream[..cut]);
        let second = ansi.push(&stream[cut..]);
        let straddles = matches!(pieces.last(), Some(AnsiOutput::Text(_)))
            && matches!(second.first(), Some(AnsiOutput::Text(_)))
            && cut > 0
            && stream[cut - 1] != 0x1b;
        pieces.extend(second);
        assert_eq!(flatten(&pieces), flatten(&whole));
        if !straddles {
            assert_eq!(pieces, whole);
        }
    }
}

#[test]
fn cutting_the_stream_byte_by_byte_changes_no_output() {
    let stream: &[u8] = b"ab\x1b[38;5;4mcd\x1b]2;x\x9c\x1b[10;20Hef\x1b[K";
    let whole = decode(stream);
    let mut ansi = Ansi::new();
    let mut pieces = Vec::new();
    for b in stream {
        pieces.extend(ansi.push(&[*b]));
    }
    assert_eq!(flatten(&pieces), flatten(&whole));
}

#[test]
fn one_parameter() {
    assert_eq!(parse_usize_param(b"123"), 123);
    assert_eq!(parse_usize_param(b"007"), 7);
    assert_eq!(parse_usize_param(b"0"), 0);
    assert_eq!(parse_usize_param(b""), 0);
    assert_eq!(parse_usize_param(b"12a"), 0);
    assert_eq!(parse_usize_param(b"?25"), 0);
    assert_eq!(
        parse_usize_param(usize::MAX.to_string().as_bytes()),
        usize::MAX
    );
    assert_eq!(parse_usize_param(b"340282366920938463463374607431768211456"), 0);
}

#[test]
fn parameter_lists() {
    assert_eq!(parse_params(b""), Vec::<usize>::new());
    assert_eq!(parse_params(b"5"), vec![5]);
    assert_eq!(parse_params(b"1;2;3"), vec![1, 2, 3]);
    assert_eq!(parse_params(b";"), vec![0, 0]);
    assert_eq!(parse_params(b"5;"), vec![5, 0]);
    assert_eq!(parse_params(b";;7"), vec![0, 0, 7]);
    assert_eq!(parse_params(b"1;x;3"), vec![1, 0, 3]);
}

#[test]
fn palette_entries() {
    assert_eq!(color_8bit(0), Color::black());
    assert_eq!(color_8bit(1), Color::red());
    assert_eq!(color_8bit(2), Color::green());
    assert_eq!(color_8bit(3), Color::yellow());
    assert_eq!(color_8bit(4), Color::blue());
    assert_eq!(color_8bit(5), Color::magenta());
    assert_eq!(color_8bit(6), Color::cyan());
    assert_eq!(color_8bit(7), Color::white());
    assert_eq!(color_8bit(8), Color::gray());
    assert_eq!(color_8bit(9), Color::red());
    assert_eq!(color_8bit(15), Color::white());
    assert_eq!(color_8bit(16), Color::from_rgb(0, 0, 0));
    assert_eq!(color_8bit(17), Color::from_rgb(0, 0, 1));
    assert_eq!(color_8bit(20), Color::from_rgb(0, 4, 0));
    assert_eq!(color_8bit(48), Color::from_rgb(32, 0, 0));
    assert_eq!(color_8bit(231), Color::from_rgb(192, 20, 3));
}

#[test]
fn named_colors() {
    assert_eq!(Color::black(), Color { r: 0, g: 0, b: 0 });
    assert_eq!(Color::white(), Color { r: 255, g: 255, b: 255 });
    assert_eq!(Color::red(), Color { r: 255, g: 0, b: 0 });
    assert_eq!(Color::green(), Color { r: 0, g: 255, b: 0 });
    assert_eq!(Color::blue(), Color { r: 0, g: 0, b: 255 });
    assert_eq!(Color::yellow(), Color { r: 255, g: 255, b: 0 });
    assert_eq!(Color::magenta(), Color { r: 170, g: 0, b: 170 });
    assert_eq!(Color::cyan(), Color { r: 0, g: 170, b: 170 });
    assert_eq!(Color::gray(), Color { r: 160, g: 160, b: 160 });
    assert_eq!(Color::from_rgb(1, 2, 3), Color { r: 1, g: 2, b: 3 });
    assert_eq!(Color::default(), Color::black());
}

#[test]
fn renditions_of_color_parameters() {
    assert_eq!(
        GraphicRendition::from(30),
        GraphicRendition::ForegroundColor(Color::black())
    );
    assert_eq!(
        GraphicRendition::from(37),
        GraphicRendition::ForegroundColor(Color::white())
    );
    assert_eq!(
        GraphicRendition::from(35),
        GraphicRendition::ForegroundColor(Color::magenta())
    );
    assert_eq!(
        GraphicRendition::from(40),
        GraphicRendition::BackgroundColor(Color::black())
    );
    assert_eq!(
        GraphicRendition::from(46),
        GraphicRendition::BackgroundColor(Color::cyan())
    );
    assert_eq!(
        GraphicRendition::from(38),
        GraphicRendition::ForegroundColor(Color::white())
    );
    assert_eq!(
        GraphicRendition::from(200),
        GraphicRendition::ForegroundColor(Color::white())
    );
}

#[test]
fn clear_modes_by_number() {
    assert_eq!(ClearMode::from(0), ClearMode::ToEnd);
    assert_eq!(ClearMode::from(1), ClearMode::ToBeginning);
    assert_eq!(ClearMode::from(2), ClearMode::Both);
    assert_eq!(ClearMode::from(99), ClearMode::Both);
}

#[test]
fn csi_parser_steps() {
    let mut parser = CSIParser::new();
    assert!(parser.push(b'1').is_none());
    assert!(parser.push(b';').is_none());
    assert!(parser.push(b'2').is_none());
    assert!(parser.push(b' ').is_none());
    assert!(parser.push(0x01).is_none());
    match parser.push(b'q') {
        Some(Ok(done)) => {
            assert_eq!(done.params, b"1;2".to_vec());
            assert_eq!(done.intermediates, b" ".to_vec());
            assert_eq!(done.func, b'q');
        }
        _ => panic!("the final byte ends the sequence"),
    }
}

#[test]
fn csi_parser_rejects_a_late_parameter() {
    let mut parser = CSIParser::new();
    assert!(parser.push(b'!').is_none());
    assert!(matches!(
        parser.push(b'1'),
        Some(Err(CSIParserError::InvalidCSI))
    ));
}

#[test]
fn osc_parser_steps() {
    let mut parser = OscParser::new();
    assert!(parser.push(b'2').is_none());
    assert!(parser.push(b';').is_none());
    assert!(parser.push(b'h').is_none());
    assert!(parser.push(b'i').is_none());
    match parser.push(0x07) {
        Some(done) => assert_eq!(done.title, "hi"),
        None => panic!("the bell ends the command"),
    }
}
