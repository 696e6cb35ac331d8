//! Whole sequences: what the decoder makes of a control sequence or an
//! operating system command that arrives complete.

use vstd::prelude::*;
use crate::ansi::ansi_codes::{ESC, ESC_START, OSC_START, PARAM_SEPARATOR};
use crate::ansi::csi::{
    csi_outputs, is_csi_intermediate, is_csi_param, is_csi_terminator, CSIParserState, CsiView,
};
use crate::ansi::decoder::{controls, DecoderState, Item};
use crate::ansi::osc::{is_osc_terminator, title_chars, OscState, OscView, TITLE_COMMAND};
use crate::ansi::Output;

verus! {

/// Whether every byte is a parameter byte.
pub open spec fn all_params(bytes: Seq<u8>) -> bool {
    forall|i: int| 0 <= i < bytes.len() ==> is_csi_param(#[trigger] bytes[i])
}

/// Whether every byte is an intermediate byte.
pub open spec fn all_intermediates(bytes: Seq<u8>) -> bool {
    forall|i: int| 0 <= i < bytes.len() ==> is_csi_intermediate(#[trigger] bytes[i])
}

/// Whether no byte ends an operating system command.
pub open spec fn no_osc_terminator(bytes: Seq<u8>) -> bool {
    forall|i: int| 0 <= i < bytes.len() ==> !is_osc_terminator(#[trigger] bytes[i])
}

/// Whether the title marker `2;` occurs nowhere in the bytes.
pub open spec fn no_title_marker(bytes: Seq<u8>) -> bool {
    forall|i: int|
        0 <= i < bytes.len() - 1 ==> !(#[trigger] bytes[i] == TITLE_COMMAND && bytes[i + 1]
            == PARAM_SEPARATOR)
}

/// Inside a control sequence, parameter bytes are gathered and give nothing
/// out.
proof fn lemma_csi_params(parser: CsiView, bytes: Seq<u8>)
    requires
        parser.state == CSIParserState::Parameters,
        all_params(bytes),
    ensures
        DecoderState::Csi(parser).after(bytes) == DecoderState::Csi(
            CsiView { params: parser.params + bytes, ..parser },
        ),
        DecoderState::Csi(parser).items(bytes) == Seq::<Item>::empty(),
    decreases bytes.len(),
{
    if bytes.len() == 0 {
        assert(parser.params + bytes == parser.params);
    } else {
        lemma_csi_params(parser, bytes.drop_last());
        assert(is_csi_param(bytes[bytes.len() - 1]));
        assert((parser.params + bytes.drop_last()).push(bytes.last()) == parser.params + bytes);
    }
}

/// Inside a control sequence, intermediate bytes leave the parameters as
/// they are and give nothing out.
proof fn lemma_csi_intermediates(parser: CsiView, bytes: Seq<u8>)
    requires
        all_intermediates(bytes),
    ensures
        DecoderState::Csi(parser).after(bytes) is Csi,
        DecoderState::Csi(parser).after(bytes)->Csi_0.params == parser.params,
        bytes.len() > 0 ==> DecoderState::Csi(parser).after(bytes)->Csi_0.state
            == CSIParserState::Intermediates,
        bytes.len() == 0 ==> DecoderState::Csi(parser).after(bytes) == DecoderState::Csi(parser),
        DecoderState::Csi(parser).items(bytes) == Seq::<Item>::empty(),
    decreases bytes.len(),
{
    if bytes.len() > 0 {
        lemma_csi_intermediates(parser, bytes.drop_last());
        assert(is_csi_intermediate(bytes[bytes.len() - 1]));
    }
}

/// The state and the items after a stream that continues another.
proof fn lemma_continue(start: DecoderState, a: Seq<u8>, b: Seq<u8>)
    ensures
        start.after(a + b) == start.after(a).after(b),
        start.items(a + b) == start.items(a) + start.after(a).items(b),
{
    crate::ansi::chunking::lemma_cut_preserves_items(start, a, b);
}

/// The state and the items after a single byte.
proof fn lemma_single(start: DecoderState, b: u8)
    ensures
        start.after(seq![b]) == start.next(b),
        start.items(seq![b]) == start.emits(b),
{
    assert(seq![b].drop_last() =~= Seq::<u8>::empty());
    assert(start.after(Seq::<u8>::empty()) == start);
    assert(start.items(Seq::<u8>::empty()) + start.emits(b) == start.emits(b));
}

/// A control sequence that arrives outside any sequence, made of an escape,
/// `[`, parameter bytes, intermediate bytes and a final byte, closes the run
/// of text before it and gives what its parameters and its final byte name;
/// the decoder is outside any sequence again.
pub proof fn lemma_control_sequence(params: Seq<u8>, intermediates: Seq<u8>, func: u8)
    requires
        all_params(params),
        all_intermediates(intermediates),
        is_csi_terminator(func),
    ensures
        ({
            let sequence = seq![ESC, ESC_START] + params + intermediates + seq![func];
            &&& DecoderState::Ground.after(sequence) == DecoderState::Ground
            &&& DecoderState::Ground.items(sequence) == seq![Item::Break] + controls(
                csi_outputs(params, func),
            )
        }),
{
    let ground = DecoderState::Ground;
    let opening = seq![ESC, ESC_START];
    let begun = DecoderState::Csi(CsiView::start());
    assert(ground.after(opening) == begun && ground.items(opening) == seq![Item::Break]) by {
        lemma_single(ground, ESC);
        lemma_single(DecoderState::Escape, ESC_START);
        lemma_continue(ground, seq![ESC], seq![ESC_START]);
        assert(seq![ESC] + seq![ESC_START] == opening);
        assert(seq![Item::Break] + Seq::<Item>::empty() == seq![Item::Break]);
    }
    lemma_csi_params(CsiView::start(), params);
    let gathered = CsiView { params: CsiView::start().params + params, ..CsiView::start() };
    assert(gathered.params == params) by {
        assert(CsiView::start().params + params == params);
    }
    lemma_csi_intermediates(gathered, intermediates);
    let ready = DecoderState::Csi(gathered).after(intermediates);
    lemma_single(ready, func);
    lemma_continue(ground, opening, params);
    lemma_continue(ground, opening + params, intermediates);
    lemma_continue(ground, opening + params + intermediates, seq![func]);
    assert(seq![Item::Break] + Seq::<Item>::empty() == seq![Item::Break]);
}

/// Before the title marker, an operating system command gathers nothing; it
/// only notes whether the last byte was the `2` that may begin the marker.
proof fn lemma_osc_before_marker(bytes: Seq<u8>)
    requires
        no_osc_terminator(bytes),
        no_title_marker(bytes),
    ensures
        DecoderState::Osc(OscView::start()).after(bytes) == DecoderState::Osc(
            OscView {
                title: Seq::<u8>::empty(),
                state: if bytes.len() > 0 && bytes.last() == TITLE_COMMAND {
                    OscState::TitleStart
                } else {
                    OscState::Empty
                },
            },
        ),
        DecoderState::Osc(OscView::start()).items(bytes) == Seq::<Item>::empty(),
    decreases bytes.len(),
{
    if bytes.len() > 0 {
        let shorter = bytes.drop_last();
        lemma_osc_before_marker(shorter);
        assert(!is_osc_terminator(bytes[bytes.len() - 1]));
        if shorter.len() > 0 {
            assert(shorter.last() == bytes[bytes.len() - 2]);
            assert(!(bytes[bytes.len() - 2] == TITLE_COMMAND && bytes[bytes.len() - 2 + 1]
                == PARAM_SEPARATOR));
        }
    }
}

/// Behind the title marker, an operating system command gathers every byte
/// up to its terminator.
proof fn lemma_osc_title(parser: OscView, bytes: Seq<u8>)
    requires
        parser.state == OscState::Title,
        no_osc_terminator(bytes),
    ensures
        DecoderState::Osc(parser).after(bytes) == DecoderState::Osc(
            OscView { title: parser.title + bytes, ..parser },
        ),
        DecoderState::Osc(parser).items(bytes) == Seq::<Item>::empty(),
    decreases bytes.len(),
{
    if bytes.len() == 0 {
        assert(parser.title + bytes == parser.title);
    } else {
        lemma_osc_title(parser, bytes.drop_last());
        assert(!is_osc_terminator(bytes[bytes.len() - 1]));
        assert((parser.title + bytes.drop_last()).push(bytes.last()) == parser.title + bytes);
    }
}

/// An operating system command that arrives outside any sequence gives the
/// title behind the first marker `2;`: whatever stands before the marker is
/// dropped, and every byte behind it up to the terminator is a character of
/// the title.
pub proof fn lemma_title_sequence(before: Seq<u8>, title: Seq<u8>, terminator: u8)
    requires
        no_osc_terminator(before),
        no_title_marker(before),
        no_osc_terminator(title),
        is_osc_terminator(terminator),
    ensures
        ({
            let sequence = seq![ESC, OSC_START] + before + seq![TITLE_COMMAND, PARAM_SEPARATOR]
                + title + seq![terminator];
            &&& DecoderState::Ground.after(sequence) == DecoderState::Ground
            &&& DecoderState::Ground.items(sequence) == seq![
                Item::Break,
                Item::Control(Output::Title(title_chars(title))),
            ]
        }),
{
    let ground = DecoderState::Ground;
    let opening = seq![ESC, OSC_START];
    let begun = DecoderState::Osc(OscView::start());
    assert(ground.after(opening) == begun && ground.items(opening) == seq![Item::Break]) by {
        lemma_single(ground, ESC);
        lemma_single(DecoderState::Escape, OSC_START);
        lemma_continue(ground, seq![ESC], seq![OSC_START]);
        assert(seq![ESC] + seq![OSC_START] == opening);
        assert(seq![Item::Break] + Seq::<Item>::empty() == seq![Item::Break]);
    }
    lemma_osc_before_marker(before);
    let searching = begun.after(before);
    let marker = seq![TITLE_COMMAND, PARAM_SEPARATOR];
    let found = DecoderState::Osc(OscView { title: Seq::<u8>::empty(), state: OscState::Title });
    assert(searching.after(marker) == found && searching.items(marker) == Seq::<Item>::empty())
        by {
        lemma_single(searching, TITLE_COMMAND);
        lemma_single(searching.next(TITLE_COMMAND), PARAM_SEPARATOR);
        lemma_continue(searching, seq![TITLE_COMMAND], seq![PARAM_SEPARATOR]);
        assert(seq![TITLE_COMMAND] + seq![PARAM_SEPARATOR] == marker);
    }
    lemma_osc_title(OscView { title: Seq::<u8>::empty(), state: OscState::Title }, title);
    let gathered = found.after(title);
    assert(gathered == DecoderState::Osc(OscView { title, state: OscState::Title })) by {
        assert(Seq::<u8>::empty() + title == title);
    }
    lemma_single(gathered, terminator);
    lemma_continue(ground, opening, before);
    lemma_continue(ground, opening + before, marker);
    lemma_continue(ground, opening + before + marker, title);
    lemma_continue(ground, opening + before + marker + title, seq![terminator]);
    assert(seq![Item::Break] + Seq::<Item>::empty() == seq![Item::Break]);
    assert(seq![Item::Break] + seq![Item::Control(Output::Title(title_chars(title)))] == seq![
        Item::Break,
        Item::Control(Output::Title(title_chars(title))),
    ]);
}

} // verus!
