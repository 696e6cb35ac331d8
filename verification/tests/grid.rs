use turm::color::Color;
use turm::grid::cell::{Cell, Style};
use turm::grid::row::Row;
use turm::grid::{Grid, TextSection};

fn put(g: &mut Grid, row: usize, column: usize, c: char) {
    let cell = g.get(row, column);
    g.set(row, column, Cell { c: Some(c), ..cell });
}

fn write(g: &mut Grid, row: usize, text: &str) {
    for (column, c) in text.chars().enumerate() {
        put(g, row, column, c);
    }
}

fn row_text(g: &Grid, row: usize) -> String {
    let mut text = String::new();
    for column in 0..g.columns() {
        text.push(g.get(row, column).c.unwrap_or('.'));
    }
    text
}

fn plain() -> Style {
    Style::default()
}

#[test]
fn grid_test_scroll_up() {
    let mut g = Grid::new(2, 2);
    put(&mut g, 1, 0, 'a');
    assert!(g.get(0, 0).c.unwrap_or(' ') == ' ');
    g.scroll_up(1, true);
    assert!(g.get(0, 0).c.unwrap_or(' ') == 'a');
}

#[test]
fn mod_test_scroll_up() {
    let mut g = Grid::new(2, 2);
    put(&mut g, 1, 0, 'a');
    assert!(g.get(0, 0).c.is_none());
    g.scroll_up(1, true);
    assert!(g.get(0, 0).c == Some('a'));
}

#[test]
fn test_resize() {
    let mut g = Grid::new(2, 2);
    put(&mut g, 0, 0, 'a');
    put(&mut g, 1, 0, 'b');

    g.resize(3, 2);

    assert!(g.get(0, 0).c == Some('a'));
    assert!(g.get(1, 0).c == Some('b'));
}

#[test]
fn test_resize_with_empty() {
    let mut g = Grid::new(2, 2);
    put(&mut g, 0, 0, 'a');
    put(&mut g, 1, 0, ' ');
    put(&mut g, 1, 1, 'a');

    println!("{}", g.to_text());
    g.resize(3, 3);
    println!("{}", g.to_text());

    assert!(g.get(1, 1).c == Some('a'));
}

#[test]
fn default_style_is_white_on_black() {
    let style = Style::default();
    assert_eq!(style.fg, Color::white());
    assert_eq!(style.bg, Color::black());
    assert!(!style.bold);
    assert!(!style.underline);
    assert!(!style.italics);
}

#[test]
fn new_cell_is_erased() {
    assert_eq!(Cell::new(), Cell { c: None, style: Style::default() });
    assert_eq!(Cell::default(), Cell::new());
}

#[test]
fn new_row_has_the_asked_width() {
    let row = Row::new(3);
    assert_eq!(row.len(), 3);
    assert_eq!(row.inner, vec![Cell::new(), Cell::new(), Cell::new()]);
    assert_eq!(Row::new(0).len(), 0);
}

#[test]
fn reset_erases_characters_and_keeps_styles() {
    let bold = Style { bold: true, ..Style::default() };
    let mut row = Row::new(2);
    row.inner[0] = Cell { c: Some('x'), style: bold };
    row.reset();
    assert_eq!(row.get(0), Cell { c: None, style: bold });
    assert_eq!(row.get(1), Cell::new());
}

#[test]
fn new_grid_is_erased() {
    let g = Grid::new(3, 2);
    assert_eq!(g.columns(), 3);
    assert_eq!(g.lines(), 2);
    assert_eq!(g.scrollback_len(), 0);
    assert_eq!(g.scrolldown_len(), 0);
    for row in 0..2 {
        for column in 0..3 {
            assert_eq!(g.get(row, column), Cell::new());
        }
    }
}

#[test]
fn scroll_up_then_down_restores_the_rows() {
    let mut g = Grid::new(3, 3);
    write(&mut g, 0, "abc");
    write(&mut g, 1, "de");
    write(&mut g, 2, "f");
    g.scroll_up(1, true);
    assert_eq!(row_text(&g, 0), "de.");
    assert_eq!(row_text(&g, 1), "f..");
    assert_eq!(row_text(&g, 2), "...");
    assert_eq!(g.scrollback_len(), 1);
    g.scroll_down(1, true);
    assert_eq!(row_text(&g, 0), "abc");
    assert_eq!(row_text(&g, 1), "de.");
    assert_eq!(row_text(&g, 2), "f..");
    assert_eq!(g.scrollback_len(), 0);
    assert_eq!(g.scrolldown_len(), 1);
}

#[test]
fn scroll_down_then_up_restores_the_rows() {
    let mut g = Grid::new(2, 2);
    write(&mut g, 0, "ab");
    write(&mut g, 1, "cd");
    g.scroll_down(1, true);
    assert_eq!(row_text(&g, 0), "..");
    assert_eq!(row_text(&g, 1), "ab");
    g.scroll_up(1, true);
    assert_eq!(row_text(&g, 0), "ab");
    assert_eq!(row_text(&g, 1), "cd");
}

#[test]
fn scroll_without_force_needs_a_waiting_row() {
    let mut g = Grid::new(2, 2);
    write(&mut g, 0, "ab");
    g.scroll_up(3, false);
    assert_eq!(row_text(&g, 0), "ab");
    assert_eq!(g.scrollback_len(), 0);
    g.scroll_down(3, false);
    assert_eq!(row_text(&g, 0), "ab");
    assert_eq!(g.scrolldown_len(), 0);

    g.scroll_up(1, true);
    assert_eq!(g.scrollback_len(), 1);
    g.scroll_down(3, false);
    assert_eq!(row_text(&g, 0), "ab");
    assert_eq!(g.scrollback_len(), 0);
    assert_eq!(g.scrolldown_len(), 1);
    g.scroll_up(3, false);
    assert_eq!(row_text(&g, 0), "..");
    assert_eq!(g.scrollback_len(), 1);
    assert_eq!(g.scrolldown_len(), 0);
}

#[test]
fn one_request_scrolls_four_rows_at_most() {
    let mut g = Grid::new(1, 6);
    for row in 0..6 {
        put(&mut g, row, 0, (b'a' + row as u8) as char);
    }
    g.scroll_up(9, true);
    assert_eq!(g.scrollback_len(), 4);
    assert_eq!(row_text(&g, 0), "e");
    assert_eq!(row_text(&g, 1), "f");
    assert_eq!(row_text(&g, 2), ".");
    g.scroll_down(u32::MAX, true);
    assert_eq!(g.scrollback_len(), 0);
    assert_eq!(g.scrolldown_len(), 4);
    assert_eq!(row_text(&g, 0), "a");
    assert_eq!(row_text(&g, 5), "f");
    g.scroll_up(0, true);
    assert_eq!(row_text(&g, 0), "a");
}

#[test]
fn scrolling_a_grid_without_rows_does_nothing() {
    let mut g = Grid::new(3, 0);
    g.scroll_up(1, true);
    g.scroll_down(1, true);
    assert_eq!(g.lines(), 0);
    assert_eq!(g.scrollback_len(), 0);
    assert_eq!(g.scrolldown_len(), 0);
}

#[test]
fn resize_rewraps_without_a_hard_break() {
    let mut g = Grid::new(2, 2);
    write(&mut g, 0, "ab");
    write(&mut g, 1, "c ");
    g.resize(4, 1);
    assert_eq!(g.columns(), 4);
    assert_eq!(g.lines(), 1);
    assert_eq!(row_text(&g, 0), "abc ");
    assert_eq!(g.sections().text.trim_end(), "abc");
}

#[test]
fn resize_to_narrower_rows_wraps() {
    let mut g = Grid::new(4, 1);
    write(&mut g, 0, "abcd");
    g.resize(2, 3);
    assert_eq!(row_text(&g, 0), "ab");
    assert_eq!(row_text(&g, 1), "cd");
    assert_eq!(row_text(&g, 2), "..");
}

#[test]
fn resize_fills_up_with_erased_rows() {
    let mut g = Grid::new(2, 1);
    write(&mut g, 0, "a");
    g.resize(3, 4);
    assert_eq!(g.lines(), 4);
    assert_eq!(row_text(&g, 0), "a..");
    assert_eq!(row_text(&g, 1), "...");
    assert_eq!(row_text(&g, 2), "...");
    assert_eq!(row_text(&g, 3), "...");
}

#[test]
fn resize_stops_at_the_last_row() {
    let mut g = Grid::new(2, 3);
    write(&mut g, 0, "ab");
    write(&mut g, 1, "cd");
    write(&mut g, 2, "ef");
    g.resize(2, 2);
    assert_eq!(g.lines(), 2);
    assert_eq!(row_text(&g, 0), "ab");
    assert_eq!(row_text(&g, 1), "cd");
    g.resize(3, 1);
    assert_eq!(g.lines(), 1);
    assert_eq!(row_text(&g, 0), "abc");
}

#[test]
fn resize_keeps_a_hard_break() {
    let mut g = Grid::new(3, 2);
    write(&mut g, 0, "a");
    write(&mut g, 1, "bc");
    g.resize(6, 3);
    assert_eq!(row_text(&g, 0), "a.....");
    assert_eq!(row_text(&g, 1), "bc....");
    assert_eq!(row_text(&g, 2), "......");
}

#[test]
fn resize_ends_a_full_line_at_an_erased_cell() {
    let mut g = Grid::new(3, 2);
    write(&mut g, 0, "ab");
    write(&mut g, 1, "c");
    g.resize(2, 4);
    assert_eq!(row_text(&g, 0), "ab");
    assert_eq!(row_text(&g, 1), "..");
    assert_eq!(row_text(&g, 2), "c.");
    assert_eq!(row_text(&g, 3), "..");
}

#[test]
fn resize_to_nothing() {
    let mut g = Grid::new(2, 2);
    write(&mut g, 0, "ab");
    g.resize(0, 3);
    assert_eq!(g.columns(), 0);
    assert_eq!(g.lines(), 3);
    assert_eq!(g.sections().text, "\n\n\n");
    g.resize(2, 0);
    assert_eq!(g.lines(), 0);
    assert_eq!(g.sections().text, "");
    g.resize(2, 1);
    assert_eq!(row_text(&g, 0), "..");
}

#[test]
fn resize_leaves_the_history_alone() {
    let mut g = Grid::new(3, 2);
    write(&mut g, 0, "abc");
    write(&mut g, 1, "def");
    g.scroll_up(1, true);
    g.resize(2, 2);
    assert_eq!(g.scrollback_len(), 1);
    assert_eq!(row_text(&g, 0), "de");
    assert_eq!(row_text(&g, 1), "f.");
    g.scroll_down(1, true);
    assert_eq!(row_text(&g, 0), "ab");
    assert_eq!(row_text(&g, 1), "de");
    g.resize(4, 2);
    g.scroll_up(1, true);
    assert_eq!(row_text(&g, 1), "f...");
}

#[test]
fn sections_of_an_erased_grid() {
    let g = Grid::new(3, 2);
    let sections = g.sections();
    assert_eq!(sections.text, "   \n   \n");
    assert_eq!(
        sections.sections,
        vec![TextSection { style: plain(), offset: 0, len: 8 }]
    );
}

#[test]
fn sections_of_a_grid_without_rows() {
    let g = Grid::new(3, 0);
    let sections = g.sections();
    assert_eq!(sections.text, "");
    assert_eq!(
        sections.sections,
        vec![TextSection { style: plain(), offset: 0, len: 0 }]
    );
}

#[test]
fn sections_of_a_two_toned_grid() {
    let a = Style { fg: Color::red(), ..plain() };
    let b = Style { bg: Color::blue(), ..plain() };
    let columns = 4;
    let lines = 3;
    let mut g = Grid::new(columns, lines);
    for row in 0..lines {
        for column in 0..columns {
            let style = if row == 0 && column == 0 { a } else { b };
            g.set(row, column, Cell { c: Some('x'), style });
        }
    }
    let sections = g.sections();
    assert_eq!(sections.sections.len(), 2);
    assert_eq!(
        sections.sections[0],
        TextSection { style: a, offset: 0, len: 1 }
    );
    assert_eq!(
        sections.sections[1],
        TextSection { style: b, offset: 1, len: columns * lines + lines }
    );
    assert_eq!(sections.text.len(), columns * lines + lines);
    let first = &sections.text[sections.sections[0].offset..sections.sections[0].len];
    let second = &sections.text[sections.sections[1].offset..sections.sections[1].len];
    assert_eq!(first.len() + second.len(), columns * lines + lines);
    assert_eq!(format!("{}{}", first, second), sections.text);
}

#[test]
fn sections_of_a_two_toned_grid_one_column_wide() {
    let a = Style { bold: true, ..plain() };
    let mut g = Grid::new(1, 2);
    g.set(0, 0, Cell { c: Some('x'), style: a });
    let sections = g.sections();
    assert_eq!(sections.text, "x\n \n");
    assert_eq!(
        sections.sections,
        vec![
            TextSection { style: a, offset: 0, len: 2 },
            TextSection { style: plain(), offset: 2, len: 4 },
        ]
    );
}

#[test]
fn a_grid_of_one_cell_has_one_section() {
    let a = Style { bold: true, ..plain() };
    let mut g = Grid::new(1, 1);
    g.set(0, 0, Cell { c: Some('x'), style: a });
    assert_eq!(
        g.sections().sections,
        vec![TextSection { style: a, offset: 0, len: 2 }]
    );
}

#[test]
fn section_offsets_count_bytes() {
    let a = Style { underline: true, ..plain() };
    let mut g = Grid::new(3, 1);
    g.set(0, 0, Cell { c: Some('\u{e9}'), style: plain() });
    g.set(0, 1, Cell { c: Some('\u{20ac}'), style: a });
    g.set(0, 2, Cell { c: Some('\u{1f600}'), style: plain() });
    let sections = g.sections();
    assert_eq!(sections.text, "\u{e9}\u{20ac}\u{1f600}\n");
    assert_eq!(
        sections.sections,
        vec![
            TextSection { style: plain(), offset: 0, len: 2 },
            TextSection { style: a, offset: 2, len: 5 },
            TextSection { style: plain(), offset: 5, len: 10 },
        ]
    );
    for section in &sections.sections {
        assert!(sections.text.is_char_boundary(section.offset));
        assert!(sections.text.is_char_boundary(section.len));
    }
}

#[test]
fn the_last_section_is_closed_when_its_bytes_equal_the_character_count() {
    let a = Style { italics: true, ..plain() };
    let mut g = Grid::new(2, 1);
    g.set(0, 0, Cell { c: Some('a'), style: plain() });
    g.set(0, 1, Cell { c: Some('\u{e9}'), style: a });
    assert_eq!(
        g.sections().sections,
        vec![
            TextSection { style: plain(), offset: 0, len: 1 },
            TextSection { style: a, offset: 1, len: 4 },
        ]
    );
}

#[test]
fn sections_change_with_every_change_of_style() {
    let a = Style { fg: Color::green(), ..plain() };
    let mut g = Grid::new(2, 2);
    g.set(0, 1, Cell { c: Some('x'), style: a });
    g.set(1, 1, Cell { c: Some('y'), style: a });
    let sections = g.sections();
    assert_eq!(sections.text, " x\n y\n");
    assert_eq!(
        sections.sections,
        vec![
            TextSection { style: plain(), offset: 0, len: 1 },
            TextSection { style: a, offset: 1, len: 3 },
            TextSection { style: plain(), offset: 3, len: 4 },
            TextSection { style: a, offset: 4, len: 6 },
        ]
    );
}

#[test]
fn fill_row_replaces_the_end_of_a_row() {
    let mut g = Grid::new(3, 2);
    write(&mut g, 0, "abc");
    write(&mut g, 1, "def");
    g.fill_row(0, 1, Cell::new());
    assert_eq!(row_text(&g, 0), "a..");
    assert_eq!(row_text(&g, 1), "def");
    g.fill_row(1, 3, Cell::new());
    assert_eq!(row_text(&g, 1), "def");
}

#[test]
fn grid_as_text() {
    let mut g = Grid::new(2, 2);
    put(&mut g, 0, 0, 'a');
    put(&mut g, 1, 0, '\t');
    put(&mut g, 1, 1, 'b');
    g.scroll_up(1, true);
    let expected = "\n\n#################################\n\n\n\
                    Scrollback\n__\n|a|\n--\n\
                    -------------------------------------\n\
                    Rows\n__\n| b|\n||\n--\n\
                    -------------------------------------\n\
                    Scrolldown\n__\n--\n";
    assert_eq!(g.to_text(), expected);
}

#[test]
fn sizes_that_fit() {
    assert!(Grid::fits(0, 0));
    assert!(Grid::fits(92, 34));
    assert!(Grid::fits(usize::MAX, 0));
    assert!(Grid::fits(0, usize::MAX / 4));
    assert!(!Grid::fits(0, usize::MAX / 4 + 1));
    assert!(!Grid::fits(usize::MAX, 1));
    assert!(!Grid::fits(usize::MAX / 4, 1));
    assert!(Grid::fits(usize::MAX / 4 - 1, 1));
    assert!(!Grid::fits(1 << (usize::BITS / 2), 1 << (usize::BITS / 2)));
}
