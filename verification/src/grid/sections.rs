//! The screen as one text with its style sections, as a renderer wants it.

use vstd::prelude::*;
use crate::grid::cell::{Cell, Style};
use crate::grid::Grid;
use crate::utf8::{len_utf8, lemma_utf8_len_bounds, utf8_len, utf8_width};

verus! {

/// A stretch of the screen text that is drawn in one style. `offset` is the
/// byte at which it begins and `len` the byte before which it ends.
#[derive(Debug, Clone, Copy, PartialEq, Eq, Structural)]
pub struct TextSection {
    pub style: Style,
    pub offset: usize,
    pub len: usize,
}

/// The screen as text, and the sections of that text by style.
#[derive(Debug)]
pub struct Sections {
    pub text: String,
    pub sections: Vec<TextSection>,
}

/// A stretch of text in one style: from byte `start` up to byte `end`.
pub struct Run {
    pub style: Style,
    pub start: nat,
    pub end: nat,
}

impl View for TextSection {
    type V = Run;

    open spec fn view(&self) -> Run {
        Run { style: self.style, start: self.offset as nat, end: self.len as nat }
    }
}

/// The runs that a list of sections stands for.
pub open spec fn runs_of(sections: Seq<TextSection>) -> Seq<Run> {
    Seq::new(sections.len(), |i: int| sections[i]@)
}

/// The text of one row: a character for each cell, then a line end.
pub open spec fn line_text(row: Seq<Cell>) -> Seq<char> {
    Seq::new(row.len(), |i: int| row[i].shown()).push('\n')
}

/// The text of the screen: the text of each row, top to bottom.
pub open spec fn screen_text(rows: Seq<Seq<Cell>>) -> Seq<char>
    decreases rows.len(),
{
    if rows.len() == 0 {
        Seq::<char>::empty()
    } else {
        screen_text(rows.drop_last()) + line_text(rows.last())
    }
}

/// The style of the last cell of the rows, which is the style that a line
/// end after them is drawn in; the plain style where they have no cell.
pub open spec fn carried_style(rows: Seq<Seq<Cell>>) -> Style
    decreases rows.len(),
{
    if rows.len() == 0 {
        Style::plain()
    } else if rows.last().len() > 0 {
        rows.last().last().style
    } else {
        carried_style(rows.drop_last())
    }
}

/// The style of each character of a row's text. The line end has the style
/// of the cell before it, or `incoming` in a row without cells.
pub open spec fn line_styles(row: Seq<Cell>, incoming: Style) -> Seq<Style> {
    Seq::new(row.len(), |i: int| row[i].style).push(
        if row.len() > 0 {
            row.last().style
        } else {
            incoming
        },
    )
}

/// The style of each character of the screen text.
pub open spec fn screen_styles(rows: Seq<Seq<Cell>>) -> Seq<Style>
    decreases rows.len(),
{
    if rows.len() == 0 {
        Seq::<Style>::empty()
    } else {
        screen_styles(rows.drop_last()) + line_styles(
            rows.last(),
            carried_style(rows.drop_last()),
        )
    }
}

/// The text cut into its longest stretches of one style, each with the bytes
/// it covers. `styles` gives the style of each character of `text`.
pub open spec fn style_runs(text: Seq<char>, styles: Seq<Style>) -> Seq<Run>
    recommends
        text.len() == styles.len(),
    decreases text.len(),
{
    if text.len() == 0 {
        Seq::<Run>::empty()
    } else {
        let before = style_runs(text.drop_last(), styles.drop_last());
        let width = utf8_width(text.last());
        if before.len() > 0 && before.last().style == styles.last() {
            before.update(before.len() - 1, Run { end: before.last().end + width, ..before.last() })
        } else {
            before.push(
                Run {
                    style: styles.last(),
                    start: utf8_len(text.drop_last()),
                    end: utf8_len(text.drop_last()) + width,
                },
            )
        }
    }
}

/// The sections of the screen: the longest stretches of its text in one
/// style. A screen without text has one empty section in the plain style.
pub open spec fn sections_of(rows: Seq<Seq<Cell>>) -> Seq<Run> {
    let runs = style_runs(screen_text(rows), screen_styles(rows));
    if runs.len() == 0 {
        seq![Run { style: Style::plain(), start: 0, end: 0 }]
    } else {
        runs
    }
}

/// The text and the styles of a screen have one entry for each cell and one
/// for each row.
pub proof fn lemma_screen_text_len(rows: Seq<Seq<Cell>>, columns: nat)
    requires
        forall|i: int| 0 <= i < rows.len() ==> (#[trigger] rows[i]).len() == columns,
    ensures
        screen_text(rows).len() == (columns + 1) * rows.len(),
        screen_styles(rows).len() == (columns + 1) * rows.len(),
    decreases rows.len(),
{
    if rows.len() > 0 {
        lemma_screen_text_len(rows.drop_last(), columns);
        assert((columns + 1) * (rows.len() - 1) + (columns + 1) == (columns + 1) * rows.len())
            by (nonlinear_arith);
    }
}

/// The style that the rows carry is that of the last character of their text.
proof fn lemma_carried_style(rows: Seq<Seq<Cell>>)
    ensures
        carried_style(rows) == if screen_styles(rows).len() > 0 {
            screen_styles(rows).last()
        } else {
            Style::plain()
        },
    decreases rows.len(),
{
    if rows.len() > 0 {
        lemma_carried_style(rows.drop_last());
    }
}

/// Gathers the text and the sections, one character at a time.
struct SectionBuilder {
    text: String,
    sections: Vec<TextSection>,
    current: Style,
    offset: usize,
    len: usize,
    styles: Ghost<Seq<Style>>,
}

impl SectionBuilder {
    spec fn runs(&self) -> Seq<Run> {
        if self.len == 0 {
            runs_of(self.sections@)
        } else {
            runs_of(self.sections@).push(
                Run {
                    style: self.current,
                    start: self.offset as nat,
                    end: (self.offset + self.len) as nat,
                },
            )
        }
    }

    spec fn inv(&self) -> bool {
        &&& self.text@.len() == self.styles@.len()
        &&& self.offset + self.len == utf8_len(self.text@)
        &&& self.offset + self.len <= usize::MAX
        &&& self.len == 0 <==> self.text@.len() == 0
        &&& self.len == 0 ==> self.sections@.len() == 0 && self.offset == 0
        &&& self.current == if self.styles@.len() > 0 {
            self.styles@.last()
        } else {
            Style::plain()
        }
        &&& self.runs() == style_runs(self.text@, self.styles@)
    }

    fn new() -> (builder: SectionBuilder)
        ensures
            builder.inv(),
            builder.text@ == Seq::<char>::empty(),
            builder.styles@ == Seq::<Style>::empty(),
    {
        let builder = SectionBuilder {
            text: String::new(),
            sections: Vec::new(),
            current: Style::default(),
            offset: 0,
            len: 0,
            styles: Ghost(Seq::empty()),
        };
        assert(builder.runs() =~= style_runs(builder.text@, builder.styles@));
        builder
    }

    /// Adds one character in the given style.
    fn push(&mut self, c: char, style: Style)
        requires
            old(self).inv(),
            utf8_len(old(self).text@) + 4 <= usize::MAX,
        ensures
            final(self).inv(),
            final(self).text@ == old(self).text@.push(c),
            final(self).styles@ == old(self).styles@.push(style),
    {
        let ghost text = self.text@;
        let ghost styles = self.styles@;
        let ghost before = self.runs();
        let ghost closed = runs_of(self.sections@);
        if self.len > 0 && style != self.current {
            let section = TextSection {
                style: self.current,
                offset: self.offset,
                len: self.offset + self.len,
            };
            self.sections.push(section);
            self.offset = self.offset + self.len;
            self.len = 0;
            assert(runs_of(self.sections@) =~= before);
        }
        self.current = style;
        self.text.push(c);
        self.len = self.len + len_utf8(c);
        self.styles = Ghost(styles.push(style));
        proof {
            assert(self.text@.drop_last() == text);
            assert(self.styles@.drop_last() == styles);
            assert(self.text@.last() == c);
            assert(self.styles@.last() == style);
            assert(self.runs() =~= style_runs(self.text@, self.styles@));
        }
    }

    /// Closes the last section and hands out the result.
    fn finish(self) -> (r: Sections)
        requires
            self.inv(),
        ensures
            r.text@ == self.text@,
            runs_of(r.sections@) == if self.text@.len() == 0 {
                seq![Run { style: Style::plain(), start: 0, end: 0 }]
            } else {
                style_runs(self.text@, self.styles@)
            },
    {
        let mut sections = self.sections;
        if self.len > 0 {
            sections.push(
                TextSection {
                    style: self.current,
                    offset: self.offset,
                    len: self.offset + self.len,
                },
            );
            assert(runs_of(sections@) =~= self.runs());
        } else {
            sections.push(TextSection { style: self.current, offset: 0, len: 0 });
            assert(runs_of(sections@) =~= seq![Run { style: Style::plain(), start: 0, end: 0 }]);
        }
        Sections { text: self.text, sections }
    }
}

impl Grid {
    /// The screen as a renderer wants it: the text of all rows, each row
    /// followed by a line end and each erased cell shown as a space, and the
    /// sections of that text by style. The sections follow one another
    /// without gap from the first byte of the text to its last; their
    /// offsets count bytes of UTF-8.
    pub fn sections(&self) -> (r: Sections)
        requires
            self.wf(),
        ensures
            r.text@ == screen_text(self@.rows),
            runs_of(r.sections@) == sections_of(self@.rows),
    {
        let ghost rows = self@.rows;
        let ghost columns = self@.columns;
        let lines: usize = self.lines();
        let width: usize = self.columns();
        let mut builder = SectionBuilder::new();
        let mut r: usize = 0;
        assert(rows.take(0) =~= Seq::<Seq<Cell>>::empty());
        while r < lines
            invariant
                self.wf(),
                rows == self@.rows,
                columns == self@.columns,
                width == columns,
                r <= lines,
                lines == rows.len(),
                builder.inv(),
                builder.text@ == screen_text(rows.take(r as int)),
                builder.styles@ == screen_styles(rows.take(r as int)),
            decreases lines - r,
        {
            let ghost done = rows.take(r as int);
            let ghost row = rows[r as int];
            let ghost incoming = carried_style(done);
            proof {
                lemma_screen_text_len(done, columns);
                lemma_carried_style(done);
                assert(row.len() == columns);
                assert((columns + 1) * (r + 1) <= (columns + 1) * lines) by (nonlinear_arith)
                    requires
                        r + 1 <= lines,
                ;
                assert((columns + 1) * (r + 1) == (columns + 1) * r + columns + 1)
                    by (nonlinear_arith);
            }
            let mut c: usize = 0;
            while c < width
                invariant
                    self.wf(),
                    rows == self@.rows,
                    columns == self@.columns,
                    width == columns,
                    r < lines,
                    lines == rows.len(),
                    c <= width,
                    row == rows[r as int],
                    row.len() == columns,
                    done == rows.take(r as int),
                    (columns + 1) * r + columns + 1 <= (columns + 1) * lines,
                    screen_text(done).len() == (columns + 1) * r,
                    builder.inv(),
                    builder.text@ == screen_text(done) + Seq::new(c as nat, |i: int| row[i].shown()),
                    builder.styles@ == screen_styles(done) + Seq::new(
                        c as nat,
                        |i: int| row[i].style,
                    ),
                decreases width - c,
            {
                let cell: Cell = self.get(r, c);
                let shown: char = match cell.c {
                    Some(ch) => ch,
                    None => ' ',
                };
                proof {
                    lemma_utf8_len_bounds(builder.text@);
                }
                builder.push(shown, cell.style);
                assert(builder.text@ =~= screen_text(done) + Seq::new(
                    (c + 1) as nat,
                    |i: int| row[i].shown(),
                ));
                assert(builder.styles@ =~= screen_styles(done) + Seq::new(
                    (c + 1) as nat,
                    |i: int| row[i].style,
                ));
                c += 1;
            }
            proof {
                lemma_utf8_len_bounds(builder.text@);
            }
            let style: Style = builder.current;
            builder.push('\n', style);
            proof {
                let longer = rows.take(r as int + 1);
                assert(longer.drop_last() == done);
                assert(longer.last() == row);
                assert(builder.text@ =~= screen_text(done) + line_text(row));
                if row.len() > 0 {
                    assert(style == row.last().style);
                } else {
                    assert(style == incoming);
                }
                assert(builder.styles@ =~= screen_styles(done) + line_styles(row, incoming));
            }
            r += 1;
        }
        assert(rows.take(lines as int) == rows);
        builder.finish()
    }
}


/// The runs of a text lie end to end from its first byte to its last, none
/// is empty, and no two neighbours have the same style.
pub proof fn lemma_style_runs_tile(text: Seq<char>, styles: Seq<Style>)
    requires
        text.len() == styles.len(),
    ensures
        ({
            let runs = style_runs(text, styles);
            &&& text.len() == 0 <==> runs.len() == 0
            &&& runs.len() > 0 ==> runs[0].start == 0 && runs.last().end == utf8_len(text)
                && runs.last().style == styles.last()
            &&& forall|i: int| 0 <= i < runs.len() ==> (#[trigger] runs[i]).start < runs[i].end
            &&& forall|i: int|
                0 <= i < runs.len() - 1 ==> (#[trigger] runs[i]).end == runs[i + 1].start
                    && runs[i].style != runs[i + 1].style
        }),
    decreases text.len(),
{
    if text.len() > 0 {
        lemma_style_runs_tile(text.drop_last(), styles.drop_last());
        let before = style_runs(text.drop_last(), styles.drop_last());
        let runs = style_runs(text, styles);
        assert forall|i: int| 0 <= i < runs.len() - 1 implies (#[trigger] runs[i]).end == runs[i
            + 1].start && runs[i].style != runs[i + 1].style by {
            if i < before.len() - 1 {
                assert(before[i].end == before[i + 1].start);
            }
        }
    }
}

/// Every character lies in a run of its own style: the bytes of character
/// `j` are bytes of run `i`, for the `i` that is returned.
pub proof fn lemma_style_runs_cover(text: Seq<char>, styles: Seq<Style>, j: int) -> (i: int)
    requires
        text.len() == styles.len(),
        0 <= j < text.len(),
    ensures
        0 <= i < style_runs(text, styles).len(),
        style_runs(text, styles)[i].style == styles[j],
        style_runs(text, styles)[i].start <= utf8_len(text.take(j)),
        utf8_len(text.take(j + 1)) <= style_runs(text, styles)[i].end,
    decreases text.len(),
{
    let before = style_runs(text.drop_last(), styles.drop_last());
    let runs = style_runs(text, styles);
    lemma_style_runs_tile(text.drop_last(), styles.drop_last());
    lemma_style_runs_tile(text, styles);
    if j == text.len() - 1 {
        assert(text.take(j) == text.drop_last());
        assert(text.take(j + 1) == text);
        runs.len() - 1
    } else {
        let i = lemma_style_runs_cover(text.drop_last(), styles.drop_last(), j);
        assert(text.drop_last().take(j) == text.take(j));
        assert(text.drop_last().take(j + 1) == text.take(j + 1));
        i
    }
}

/// A text in one style is one run.
proof fn lemma_runs_one_style(text: Seq<char>, styles: Seq<Style>, a: Style)
    requires
        text.len() == styles.len(),
        text.len() >= 1,
        forall|i: int| 0 <= i < styles.len() ==> styles[i] == a,
    ensures
        style_runs(text, styles) == seq![Run { style: a, start: 0, end: utf8_len(text) }],
    decreases text.len(),
{
    if text.len() == 1 {
        assert(style_runs(text.drop_last(), styles.drop_last()).len() == 0);
        assert(utf8_len(text.drop_last()) == 0);
    } else {
        lemma_runs_one_style(text.drop_last(), styles.drop_last(), a);
    }
    assert(style_runs(text, styles) =~= seq![Run { style: a, start: 0, end: utf8_len(text) }]);
}

/// A text whose first `k` characters have one style and whose other
/// characters have another is two runs that meet behind character `k`.
proof fn lemma_runs_two_styles(text: Seq<char>, styles: Seq<Style>, k: int, a: Style, b: Style)
    requires
        text.len() == styles.len(),
        1 <= k < text.len(),
        a != b,
        forall|i: int| 0 <= i < k ==> styles[i] == a,
        forall|i: int| k <= i < styles.len() ==> styles[i] == b,
    ensures
        style_runs(text, styles) == seq![
            Run { style: a, start: 0, end: utf8_len(text.take(k)) },
            Run { style: b, start: utf8_len(text.take(k)), end: utf8_len(text) },
        ],
    decreases text.len(),
{
    let shorter = text.drop_last();
    if k == text.len() - 1 {
        lemma_runs_one_style(shorter, styles.drop_last(), a);
        assert(text.take(k) == shorter);
    } else {
        lemma_runs_two_styles(shorter, styles.drop_last(), k, a, b);
        assert(shorter.take(k) == text.take(k));
    }
    assert(style_runs(text, styles) =~= seq![
        Run { style: a, start: 0, end: utf8_len(text.take(k)) },
        Run { style: b, start: utf8_len(text.take(k)), end: utf8_len(text) },
    ]);
}

/// Whether the cell at the top left has style `a` and every other cell has
/// style `b`.
pub open spec fn two_toned(rows: Seq<Seq<Cell>>, a: Style, b: Style) -> bool {
    forall|r: int, c: int|
        0 <= r < rows.len() && 0 <= c < rows[r].len() ==> (#[trigger] rows[r][c]).style == if r
            == 0 && c == 0 {
            a
        } else {
            b
        }
}

/// The styles of the text of a two-toned screen: the first character has
/// the one style, and so has the line end behind it in a screen of one
/// column; every other character has the other style.
proof fn lemma_two_toned_styles(rows: Seq<Seq<Cell>>, columns: nat, a: Style, b: Style)
    requires
        columns >= 1,
        rows.len() >= 1,
        forall|i: int| 0 <= i < rows.len() ==> (#[trigger] rows[i]).len() == columns,
        two_toned(rows, a, b),
    ensures
        ({
            let styles = screen_styles(rows);
            let k: int = if columns == 1 {
                2
            } else {
                1
            };
            &&& styles.len() == (columns + 1) * rows.len()
            &&& forall|i: int| 0 <= i < k ==> styles[i] == a
            &&& forall|i: int| k <= i < styles.len() ==> styles[i] == b
        }),
    decreases rows.len(),
{
    let styles = screen_styles(rows);
    let k: int = if columns == 1 {
        2
    } else {
        1
    };
    let last = rows.last();
    let n = rows.len() - 1;
    lemma_screen_text_len(rows, columns);
    lemma_screen_text_len(rows.drop_last(), columns);
    let line = line_styles(last, carried_style(rows.drop_last()));
    if rows.len() == 1 {
        assert(screen_styles(rows.drop_last()) =~= Seq::<Style>::empty());
        assert(styles =~= line);
        assert((columns + 1) * 1 == columns + 1) by (nonlinear_arith);
        assert forall|i: int| 0 <= i < styles.len() implies styles[i] == if i < k {
            a
        } else {
            b
        } by {
            if i < columns {
                assert(styles[i] == rows[0][i].style);
            } else {
                assert(styles[i] == rows[0][columns - 1].style);
            }
        }
    } else {
        let shorter = rows.drop_last();
        assert(two_toned(shorter, a, b)) by {
            assert forall|r: int, c: int|
                0 <= r < shorter.len() && 0 <= c < shorter[r].len() implies (
            #[trigger] shorter[r][c]).style == if r == 0 && c == 0 {
                a
            } else {
                b
            } by {
                assert(shorter[r][c] == rows[r][c]);
            }
        }
        lemma_two_toned_styles(shorter, columns, a, b);
        let head = screen_styles(shorter);
        assert(head.len() >= 2) by (nonlinear_arith)
            requires
                head.len() == (columns + 1) * n,
                columns >= 1,
                n >= 1,
        ;
        assert forall|i: int| 0 <= i < line.len() implies line[i] == b by {
            if i < columns {
                assert(line[i] == rows[n][i].style);
            } else {
                assert(line[i] == rows[n][columns - 1].style);
            }
        }
        assert forall|i: int| k <= i < styles.len() implies styles[i] == b by {
            if i >= head.len() {
                assert(styles[i] == line[i - head.len()]);
            } else {
                assert(styles[i] == head[i]);
            }
        }
        assert forall|i: int| 0 <= i < k implies styles[i] == a by {
            assert(styles[i] == head[i]);
        }
    }
}

/// A screen of at least two cells whose top left cell has one style while
/// every other cell has another gives exactly two sections. The first begins
/// with the text, the second begins where the first ends and ends with the
/// text, and the text has a character for each cell and a line end for each
/// row.
pub proof fn lemma_two_toned_sections(rows: Seq<Seq<Cell>>, columns: nat, a: Style, b: Style)
    requires
        forall|i: int| 0 <= i < rows.len() ==> (#[trigger] rows[i]).len() == columns,
        columns * rows.len() >= 2,
        two_toned(rows, a, b),
        a != b,
    ensures
        sections_of(rows).len() == 2,
        sections_of(rows)[0].style == a,
        sections_of(rows)[1].style == b,
        sections_of(rows)[0].start == 0,
        sections_of(rows)[0].end == sections_of(rows)[1].start,
        sections_of(rows)[1].end == utf8_len(screen_text(rows)),
        screen_text(rows).len() == columns * rows.len() + rows.len(),
{
    let lines = rows.len();
    assert(columns >= 1 && lines >= 1) by (nonlinear_arith)
        requires
            columns * lines >= 2,
    ;
    lemma_two_toned_styles(rows, columns, a, b);
    lemma_screen_text_len(rows, columns);
    let k: int = if columns == 1 {
        2
    } else {
        1
    };
    assert((columns + 1) * lines == columns * lines + lines) by (nonlinear_arith);
    assert(k < (columns + 1) * lines) by (nonlinear_arith)
        requires
            columns * lines >= 2,
            columns >= 1,
            lines >= 1,
            k == if columns == 1 {
                2int
            } else {
                1int
            },
    ;
    lemma_runs_two_styles(screen_text(rows), screen_styles(rows), k, a, b);
}

} // verus!
