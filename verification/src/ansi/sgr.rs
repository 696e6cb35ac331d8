//! Select graphic rendition: the color tables and the reading of the
//! parameters of an `m` sequence.

use vstd::prelude::*;
use vstd::std_specs::convert::FromSpecImpl;
use crate::ansi::{AnsiOutput, ClearMode, GraphicRendition, Output};
use crate::ansi::{lemma_view_all_push, view_all};
use crate::color::Color;

verus! {

/// The eight base colors, by their number.
pub open spec fn base_color(n: int) -> Color {
    if n == 0 {
        Color::black()
    } else if n == 1 {
        Color::red()
    } else if n == 2 {
        Color::green()
    } else if n == 3 {
        Color::yellow()
    } else if n == 4 {
        Color::blue()
    } else if n == 5 {
        Color::magenta()
    } else if n == 6 {
        Color::cyan()
    } else {
        Color::white()
    }
}

fn base_color_of(n: u8) -> (c: Color)
    ensures
        c == base_color(n as int),
{
    if n == 0 {
        Color::black()
    } else if n == 1 {
        Color::red()
    } else if n == 2 {
        Color::green()
    } else if n == 3 {
        Color::yellow()
    } else if n == 4 {
        Color::blue()
    } else if n == 5 {
        Color::magenta()
    } else if n == 6 {
        Color::cyan()
    } else {
        Color::white()
    }
}

/// The color of entry `item` of the 256-color palette, for the entries that
/// have one: 0 to 7 are the base colors; 8 is gray and 9 to 15 repeat the
/// base colors 1 to 7; 16 to 231 mask three bit fields out of `item - 16`,
/// one per channel.
pub open spec fn palette_color(item: u8) -> Color
    recommends
        item <= 231,
{
    if item < 8 {
        base_color(item as int)
    } else if item == 8 {
        Color::gray()
    } else if item < 16 {
        base_color(item - 8)
    } else {
        let v = (item - 16) as u8;
        Color::from_rgb(v & 0xe0, v & 0x1c, v & 0x03)
    }
}

/// Looks up entry `item` of the 256-color palette.
pub fn color_8bit(item: u8) -> (c: Color)
    requires
        item <= 231,
    ensures
        c == palette_color(item),
{
    if item < 8 {
        base_color_of(item)
    } else if item == 8 {
        Color::gray()
    } else if item < 16 {
        base_color_of(item - 8)
    } else {
        let v: u8 = item - 16;
        Color::from_rgb(v & 0xe0, v & 0x1c, v & 0x03)
    }
}

/// The rendition that a color parameter selects: 30 to 37 set the foreground
/// to a base color, 40 to 47 the background. Any other number selects a white
/// foreground.
pub open spec fn rendition_of(item: u8) -> GraphicRendition {
    if 30 <= item <= 37 {
        GraphicRendition::ForegroundColor(base_color(item - 30))
    } else if 40 <= item <= 47 {
        GraphicRendition::BackgroundColor(base_color(item - 40))
    } else {
        GraphicRendition::ForegroundColor(Color::white())
    }
}

impl From<u8> for GraphicRendition {
    fn from(item: u8) -> (r: GraphicRendition) {
        if 30 <= item && item <= 37 {
            GraphicRendition::ForegroundColor(base_color_of(item - 30))
        } else if 40 <= item && item <= 47 {
            GraphicRendition::BackgroundColor(base_color_of(item - 40))
        } else {
            GraphicRendition::ForegroundColor(Color::white())
        }
    }
}

impl FromSpecImpl<u8> for GraphicRendition {
    open spec fn obeys_from_spec() -> bool {
        true
    }

    open spec fn from_spec(item: u8) -> GraphicRendition {
        rendition_of(item)
    }
}

/// The clear mode that a parameter names: 0 to the end, 1 to the beginning,
/// anything else both.
pub open spec fn clear_mode_of(value: usize) -> ClearMode {
    if value == 0 {
        ClearMode::ToEnd
    } else if value == 1 {
        ClearMode::ToBeginning
    } else {
        ClearMode::Both
    }
}

impl From<usize> for ClearMode {
    fn from(value: usize) -> (mode: ClearMode) {
        if value == 0 {
            ClearMode::ToEnd
        } else if value == 1 {
            ClearMode::ToBeginning
        } else {
            ClearMode::Both
        }
    }
}

impl FromSpecImpl<usize> for ClearMode {
    open spec fn obeys_from_spec() -> bool {
        true
    }

    open spec fn from_spec(value: usize) -> ClearMode {
        clear_mode_of(value)
    }
}

/// A parameter cut down to one byte, as a color channel or a palette index.
pub open spec fn low_byte(value: usize) -> u8 {
    (value % 256) as u8
}

/// What a palette selection gives: the color as the given rendition where the
/// low byte of `value` is an entry of the palette that has a color, and
/// nothing where it is not.
pub open spec fn palette_outputs(foreground: bool, value: usize) -> Seq<Output> {
    if low_byte(value) <= 231 {
        if foreground {
            seq![Output::Sgr(GraphicRendition::ForegroundColor(palette_color(low_byte(value))))]
        } else {
            seq![Output::Sgr(GraphicRendition::BackgroundColor(palette_color(low_byte(value))))]
        }
    } else {
        Seq::<Output>::empty()
    }
}

/// One rendition for each parameter from 30 to 47, in order; the other
/// parameters give nothing.
pub open spec fn color_outputs(params: Seq<usize>) -> Seq<Output>
    decreases params.len(),
{
    if params.len() == 0 {
        Seq::<Output>::empty()
    } else {
        let before = color_outputs(params.drop_last());
        if 30 <= params.last() <= 47 {
            before.push(Output::Sgr(rendition_of(params.last() as u8)))
        } else {
            before
        }
    }
}

/// The outputs of an `m` sequence with the given parameters. The first of
/// these readings that fits is taken:
/// no parameter, or the single parameter 0, resets;
/// a single 1, 3 or 4 sets bold, italic or underline;
/// `38;5;n` and `48;5;n` select entry `n` of the palette as foreground or
/// background;
/// `38;2;r;g;b` and `48;2;r;g;b` select a color by its channels;
/// anything else is read as a list of base color selections.
pub open spec fn sgr_outputs(params: Seq<usize>) -> Seq<Output> {
    if params.len() == 0 || (params.len() == 1 && params[0] == 0) {
        seq![Output::Sgr(GraphicRendition::Reset)]
    } else if params.len() == 1 && params[0] == 1 {
        seq![Output::Sgr(GraphicRendition::Bold)]
    } else if params.len() == 1 && params[0] == 3 {
        seq![Output::Sgr(GraphicRendition::Italic)]
    } else if params.len() == 1 && params[0] == 4 {
        seq![Output::Sgr(GraphicRendition::Underline)]
    } else if params.len() >= 3 && params[0] == 38 && params[1] == 5 {
        palette_outputs(true, params[2])
    } else if params.len() >= 3 && params[0] == 48 && params[1] == 5 {
        palette_outputs(false, params[2])
    } else if params.len() >= 5 && params[0] == 38 && params[1] == 2 {
        seq![
            Output::Sgr(
                GraphicRendition::ForegroundColor(
                    Color::from_rgb(low_byte(params[2]), low_byte(params[3]), low_byte(params[4])),
                ),
            ),
        ]
    } else if params.len() >= 5 && params[0] == 48 && params[1] == 2 {
        seq![
            Output::Sgr(
                GraphicRendition::BackgroundColor(
                    Color::from_rgb(low_byte(params[2]), low_byte(params[3]), low_byte(params[4])),
                ),
            ),
        ]
    } else {
        color_outputs(params)
    }
}

fn low_byte_of(value: usize) -> (b: u8)
    ensures
        b == low_byte(value),
{
    (value % 256) as u8
}

fn push_palette(foreground: bool, value: usize, res: &mut Vec<AnsiOutput>)
    ensures
        view_all(final(res)@) == view_all(old(res)@) + palette_outputs(foreground, value),
{
    let index: u8 = low_byte_of(value);
    if index <= 231 {
        let color = color_8bit(index);
        let rendition = if foreground {
            GraphicRendition::ForegroundColor(color)
        } else {
            GraphicRendition::BackgroundColor(color)
        };
        proof {
            lemma_view_all_push(res@, AnsiOutput::Sgr(rendition));
        }
        res.push(AnsiOutput::Sgr(rendition));
    }
    assert(view_all(res@) =~= view_all(old(res)@) + palette_outputs(foreground, value));
}

fn push_one(rendition: GraphicRendition, res: &mut Vec<AnsiOutput>)
    ensures
        view_all(final(res)@) == view_all(old(res)@) + seq![Output::Sgr(rendition)],
{
    proof {
        lemma_view_all_push(res@, AnsiOutput::Sgr(rendition));
    }
    res.push(AnsiOutput::Sgr(rendition));
    assert(view_all(res@) =~= view_all(old(res)@) + seq![Output::Sgr(rendition)]);
}

/// Appends to `res` what an `m` sequence with these parameters selects.
pub fn push_sgr(params: &Vec<usize>, res: &mut Vec<AnsiOutput>)
    ensures
        view_all(final(res)@) == view_all(old(res)@) + sgr_outputs(params@),
{
    let n: usize = params.len();
    if n == 0 || (n == 1 && params[0] == 0) {
        push_one(GraphicRendition::Reset, res);
    } else if n == 1 && params[0] == 1 {
        push_one(GraphicRendition::Bold, res);
    } else if n == 1 && params[0] == 3 {
        push_one(GraphicRendition::Italic, res);
    } else if n == 1 && params[0] == 4 {
        push_one(GraphicRendition::Underline, res);
    } else if n >= 3 && params[0] == 38 && params[1] == 5 {
        push_palette(true, params[2], res);
    } else if n >= 3 && params[0] == 48 && params[1] == 5 {
        push_palette(false, params[2], res);
    } else if n >= 5 && params[0] == 38 && params[1] == 2 {
        let color = Color::from_rgb(
            low_byte_of(params[2]),
            low_byte_of(params[3]),
            low_byte_of(params[4]),
        );
        push_one(GraphicRendition::ForegroundColor(color), res);
    } else if n >= 5 && params[0] == 48 && params[1] == 2 {
        let color = Color::from_rgb(
            low_byte_of(params[2]),
            low_byte_of(params[3]),
            low_byte_of(params[4]),
        );
        push_one(GraphicRendition::BackgroundColor(color), res);
    } else {
        let mut i: usize = 0;
        while i < n
            invariant
                i <= n,
                n == params@.len(),
                view_all(res@) == view_all(old(res)@) + color_outputs(params@.take(i as int)),
            decreases n - i,
        {
            let param: usize = params[i];
            proof {
                let longer = params@.take(i as int + 1);
                assert(longer.drop_last() == params@.take(i as int));
                assert(longer.last() == param);
            }
            if 30 <= param && param <= 47 {
                let rendition = GraphicRendition::from(param as u8);
                proof {
                    lemma_view_all_push(res@, AnsiOutput::Sgr(rendition));
                    assert(view_all(res@.push(AnsiOutput::Sgr(rendition))) =~= view_all(old(res)@)
                        + color_outputs(params@.take(i as int + 1)));
                }
                res.push(AnsiOutput::Sgr(rendition));
            }
            i += 1;
        }
        assert(params@.take(n as int) == params@);
    }
}

} // verus!
