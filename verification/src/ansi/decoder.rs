//! The decoder's state machine, stated byte by byte, and the decoder itself.

use vstd::prelude::*;
use crate::ansi::ansi_codes::{
    BEL, BS, CURSOR_DOWNWARD, ESC, ESC_START, FILL_WITH_E, HASH, NEXT_LINE, OSC_START,
    SCROLL_REVERSE,
};
use crate::ansi::csi::{csi_outputs, dispatch_csi, is_csi_terminator, CSIParser, CsiView};
use crate::ansi::osc::{is_osc_terminator, title_chars, OscParser, OscView};
use crate::ansi::{lemma_view_all_push, view_all, AnsiOutput, Output};

verus! {

/// Where the decoder stands between two bytes.
pub enum DecoderState {
    /// Outside any sequence: bytes are text.
    Ground,
    /// An escape was the last byte.
    Escape,
    /// `ESC #` was seen.
    Hash,
    /// Inside a control sequence.
    Csi(CsiView),
    /// Inside an operating system command.
    Osc(OscView),
}

/// What one byte makes the decoder give out.
pub enum Item {
    /// A byte of text to print.
    Byte(u8),
    /// The end of a run of text that no command follows.
    Break,
    /// A command.
    Control(Output),
}

/// The outputs as items, each a command.
pub open spec fn controls(outputs: Seq<Output>) -> Seq<Item> {
    Seq::new(outputs.len(), |i: int| Item::Control(outputs[i]))
}

/// Whether `b` is printed when it arrives outside any sequence.
pub open spec fn is_text_byte(b: u8) -> bool {
    b != ESC && b != BS && b != BEL
}

impl DecoderState {
    /// The state after byte `b`.
    pub open spec fn next(self, b: u8) -> DecoderState {
        match self {
            DecoderState::Ground => if b == ESC {
                DecoderState::Escape
            } else {
                DecoderState::Ground
            },
            DecoderState::Escape => if b == ESC_START {
                DecoderState::Csi(CsiView::start())
            } else if b == HASH {
                DecoderState::Hash
            } else if b == OSC_START {
                DecoderState::Osc(OscView::start())
            } else {
                DecoderState::Ground
            },
            DecoderState::Hash => DecoderState::Ground,
            DecoderState::Csi(parser) => if parser.rejects(b) || is_csi_terminator(b) {
                DecoderState::Ground
            } else {
                DecoderState::Csi(parser.feed(b))
            },
            DecoderState::Osc(parser) => if is_osc_terminator(b) {
                DecoderState::Ground
            } else {
                DecoderState::Osc(parser.feed(b))
            },
        }
    }

    /// What byte `b` makes the decoder give out in this state.
    ///
    /// Outside a sequence a byte is text, but for backspace and bell, which
    /// are commands, and escape, which ends the run of text. Right after an
    /// escape three bytes are commands of their own. A control sequence gives
    /// its commands with its final byte, and nothing where its syntax is
    /// broken. An operating system command gives the title with its
    /// terminator. Everything else gives nothing.
    pub open spec fn emits(self, b: u8) -> Seq<Item> {
        match self {
            DecoderState::Ground => if b == ESC {
                seq![Item::Break]
            } else if b == BS {
                seq![Item::Control(Output::Backspace)]
            } else if b == BEL {
                seq![Item::Control(Output::Bell)]
            } else {
                seq![Item::Byte(b)]
            },
            DecoderState::Escape => if b == SCROLL_REVERSE {
                seq![Item::Control(Output::ScrollDown)]
            } else if b == CURSOR_DOWNWARD {
                seq![Item::Control(Output::CursorDown(1))]
            } else if b == NEXT_LINE {
                seq![Item::Control(Output::NextLine)]
            } else {
                Seq::<Item>::empty()
            },
            DecoderState::Hash => if b == FILL_WITH_E {
                seq![Item::Control(Output::FillWithE)]
            } else {
                Seq::<Item>::empty()
            },
            DecoderState::Csi(parser) => if !parser.rejects(b) && is_csi_terminator(b) {
                controls(csi_outputs(parser.params, b))
            } else {
                Seq::<Item>::empty()
            },
            DecoderState::Osc(parser) => if is_osc_terminator(b) {
                seq![Item::Control(Output::Title(title_chars(parser.title)))]
            } else {
                Seq::<Item>::empty()
            },
        }
    }

    /// The state after all of `bytes`, taken in order.
    pub open spec fn after(self, bytes: Seq<u8>) -> DecoderState
        decreases bytes.len(),
    {
        if bytes.len() == 0 {
            self
        } else {
            self.after(bytes.drop_last()).next(bytes.last())
        }
    }

    /// Everything that `bytes`, taken in order, make the decoder give out.
    pub open spec fn items(self, bytes: Seq<u8>) -> Seq<Item>
        decreases bytes.len(),
    {
        if bytes.len() == 0 {
            Seq::<Item>::empty()
        } else {
            self.items(bytes.drop_last()) + self.after(bytes.drop_last()).emits(bytes.last())
        }
    }
}

/// Outputs that are complete, and the text of a run that is still open.
pub struct Runs {
    pub done: Seq<Output>,
    pub pending: Seq<u8>,
}

impl Runs {
    /// The outputs once the open run is closed: a run with no byte in it
    /// leaves no output.
    pub open spec fn close(self) -> Seq<Output> {
        if self.pending.len() == 0 {
            self.done
        } else {
            self.done.push(Output::Text(self.pending))
        }
    }

    /// The runs after one more item: a byte joins the open run; a break
    /// closes it; a command closes it and follows it.
    pub open spec fn take(self, item: Item) -> Runs {
        match item {
            Item::Byte(b) => Runs { done: self.done, pending: self.pending.push(b) },
            Item::Break => Runs { done: self.close(), pending: Seq::<u8>::empty() },
            Item::Control(output) => Runs {
                done: self.close().push(output),
                pending: Seq::<u8>::empty(),
            },
        }
    }
}

/// The runs that a list of items leaves, taken in order.
pub open spec fn gather(items: Seq<Item>) -> Runs
    decreases items.len(),
{
    if items.len() == 0 {
        Runs { done: Seq::<Output>::empty(), pending: Seq::<u8>::empty() }
    } else {
        gather(items.drop_last()).take(items.last())
    }
}

/// The outputs that a list of items stands for: each maximal run of bytes
/// that no break or command interrupts is one `Text`.
pub open spec fn group(items: Seq<Item>) -> Seq<Output> {
    gather(items).close()
}

impl Runs {
    /// The runs after a list of items, taken in order.
    pub open spec fn take_all(self, items: Seq<Item>) -> Runs
        decreases items.len(),
    {
        if items.len() == 0 {
            self
        } else {
            self.take_all(items.drop_last()).take(items.last())
        }
    }
}

/// Gathering two lists laid end to end is gathering the first and going on
/// with the second.
pub proof fn lemma_gather_add(x: Seq<Item>, y: Seq<Item>)
    ensures
        gather(x + y) == gather(x).take_all(y),
    decreases y.len(),
{
    if y.len() == 0 {
        assert(x + y == x);
    } else {
        lemma_gather_add(x, y.drop_last());
        assert((x + y).drop_last() == x + y.drop_last());
        assert((x + y).last() == y.last());
    }
}

/// Going on with a single item is one step.
proof fn lemma_take_one(runs: Runs, item: Item)
    ensures
        runs.take_all(seq![item]) == runs.take(item),
{
    assert(seq![item].drop_last() =~= Seq::<Item>::empty());
    assert(runs.take_all(Seq::<Item>::empty()) == runs);
}

/// Going on with commands closes the open run, if there is a command at all,
/// and lists them.
proof fn lemma_take_controls(runs: Runs, outputs: Seq<Output>)
    ensures
        runs.take_all(controls(outputs)) == if outputs.len() == 0 {
            runs
        } else {
            Runs { done: runs.close() + outputs, pending: Seq::<u8>::empty() }
        },
    decreases outputs.len(),
{
    if outputs.len() > 0 {
        let shorter = outputs.drop_last();
        lemma_take_controls(runs, shorter);
        assert(controls(outputs).drop_last() == controls(shorter));
        assert(controls(outputs).last() == Item::Control(outputs.last()));
        if shorter.len() == 0 {
            assert(runs.close().push(outputs.last()) == runs.close() + outputs);
        } else {
            assert((runs.close() + shorter).push(outputs.last()) == runs.close() + outputs);
        }
    }
}

enum AnsiState {
    Empty,
    Escape,
    Hash,
    Csi(CSIParser),
    Osc(OscParser),
}

impl View for AnsiState {
    type V = DecoderState;

    closed spec fn view(&self) -> DecoderState {
        match self {
            AnsiState::Empty => DecoderState::Ground,
            AnsiState::Escape => DecoderState::Escape,
            AnsiState::Hash => DecoderState::Hash,
            AnsiState::Csi(parser) => DecoderState::Csi(parser@),
            AnsiState::Osc(parser) => DecoderState::Osc(parser@),
        }
    }
}

/// The decoder. It keeps what it has seen of an unfinished sequence, so the
/// bytes of one sequence may arrive in several calls.
pub struct Ansi {
    state: AnsiState,
}

impl View for Ansi {
    type V = DecoderState;

    closed spec fn view(&self) -> DecoderState {
        self.state@
    }
}

/// Closes the open run: moves its bytes, if it has any, to the outputs.
fn flush(text: &mut Vec<u8>, res: &mut Vec<AnsiOutput>)
    ensures
        final(text)@.len() == 0,
        view_all(final(res)@) == (Runs { done: view_all(old(res)@), pending: old(text)@ }).close(),
{
    if text.len() > 0 {
        let mut run: Vec<u8> = Vec::new();
        core::mem::swap(text, &mut run);
        proof {
            lemma_view_all_push(res@, AnsiOutput::Text(run));
        }
        res.push(AnsiOutput::Text(run));
    }
}

fn emit(output: AnsiOutput, res: &mut Vec<AnsiOutput>)
    ensures
        view_all(final(res)@) == view_all(old(res)@).push(output@),
{
    proof {
        lemma_view_all_push(res@, output);
    }
    res.push(output);
}

/// Takes one byte in: returns the next state, and adds to `res` and `text`
/// what the byte gives out.
fn advance(state: AnsiState, b: u8, text: &mut Vec<u8>, res: &mut Vec<AnsiOutput>) -> (next:
    AnsiState)
    requires
        !(state@ is Ground) ==> old(text)@.len() == 0,
    ensures
        next@ == state@.next(b),
        !(next@ is Ground) ==> final(text)@.len() == 0,
        (Runs { done: view_all(final(res)@), pending: final(text)@ }) == (Runs {
            done: view_all(old(res)@),
            pending: old(text)@,
        }).take_all(state@.emits(b)),
{
    let ghost before = Runs { done: view_all(res@), pending: text@ };
    match state {
        AnsiState::Empty => {
            if b == ESC {
                flush(text, res);
                proof {
                    lemma_take_one(before, Item::Break);
                    assert(text@ == Seq::<u8>::empty());
                }
                AnsiState::Escape
            } else if b == BS {
                flush(text, res);
                emit(AnsiOutput::Backspace, res);
                proof {
                    lemma_take_one(before, Item::Control(Output::Backspace));
                    assert(text@ == Seq::<u8>::empty());
                }
                AnsiState::Empty
            } else if b == BEL {
                flush(text, res);
                emit(AnsiOutput::Bell, res);
                proof {
                    lemma_take_one(before, Item::Control(Output::Bell));
                    assert(text@ == Seq::<u8>::empty());
                }
                AnsiState::Empty
            } else {
                text.push(b);
                proof {
                    lemma_take_one(before, Item::Byte(b));
                }
                AnsiState::Empty
            }
        },
        AnsiState::Escape => {
            assert(text@ == Seq::<u8>::empty());
            if b == ESC_START {
                AnsiState::Csi(CSIParser::new())
            } else if b == HASH {
                AnsiState::Hash
            } else if b == OSC_START {
                AnsiState::Osc(OscParser::new())
            } else if b == SCROLL_REVERSE {
                emit(AnsiOutput::ScrollDown, res);
                proof {
                    lemma_take_one(before, Item::Control(Output::ScrollDown));
                }
                AnsiState::Empty
            } else if b == CURSOR_DOWNWARD {
                emit(AnsiOutput::CursorDown(1), res);
                proof {
                    lemma_take_one(before, Item::Control(Output::CursorDown(1)));
                }
                AnsiState::Empty
            } else if b == NEXT_LINE {
                emit(AnsiOutput::NextLine, res);
                proof {
                    lemma_take_one(before, Item::Control(Output::NextLine));
                }
                AnsiState::Empty
            } else {
                AnsiState::Empty
            }
        },
        AnsiState::Hash => {
            assert(text@ == Seq::<u8>::empty());
            if b == FILL_WITH_E {
                emit(AnsiOutput::FillWithE, res);
                proof {
                    lemma_take_one(before, Item::Control(Output::FillWithE));
                }
            }
            AnsiState::Empty
        },
        AnsiState::Osc(mut parser) => {
            assert(text@ == Seq::<u8>::empty());
            let ghost title = title_chars(parser@.title);
            match parser.push(b) {
                Some(d) => {
                    emit(AnsiOutput::Title(d.title), res);
                    proof {
                        lemma_take_one(before, Item::Control(Output::Title(title)));
                    }
                    AnsiState::Empty
                },
                None => {
                        AnsiState::Osc(parser)
                },
            }
        },
        AnsiState::Csi(mut parser) => {
            assert(text@ == Seq::<u8>::empty());
            let ghost params = parser@.params;
            match parser.push(b) {
                Some(Ok(d)) => {
                    dispatch_csi(&d, res);
                    proof {
                        lemma_take_controls(before, csi_outputs(params, b));
                        assert(before.done + Seq::<Output>::empty() == before.done);
                    }
                    AnsiState::Empty
                },
                Some(Err(_)) => {
                        AnsiState::Empty
                },
                None => {
                        AnsiState::Csi(parser)
                },
            }
        },
    }
}

impl Ansi {
    /// A decoder outside any sequence.
    pub fn new() -> (ansi: Ansi)
        ensures
            ansi@ == DecoderState::Ground,
    {
        Ansi { state: AnsiState::Empty }
    }

    /// Decodes the next bytes of the stream.
    ///
    /// The decoder ends in the state that the bytes lead to, one by one, and
    /// returns what they give out, with every unbroken run of text as one
    /// `Text`. A run that is open when the bytes end is closed and returned
    /// too.
    pub fn push(&mut self, data: &[u8]) -> (res: Vec<AnsiOutput>)
        ensures
            final(self)@ == old(self)@.after(data@),
            view_all(res@) == group(old(self)@.items(data@)),
    {
        let mut res: Vec<AnsiOutput> = Vec::new();
        let mut text: Vec<u8> = Vec::new();
        let mut state = AnsiState::Empty;
        core::mem::swap(&mut self.state, &mut state);
        let ghost start = state@;
        let n: usize = data.len();
        let mut i: usize = 0;
        assert(view_all(res@) =~= Seq::<Output>::empty());
        while i < n
            invariant
                i <= n,
                n == data@.len(),
                state@ == start.after(data@.take(i as int)),
                !(state@ is Ground) ==> text@.len() == 0,
                gather(start.items(data@.take(i as int))) == (Runs {
                    done: view_all(res@),
                    pending: text@,
                }),
            decreases n - i,
        {
            let b: u8 = data[i];
            proof {
                let longer = data@.take(i as int + 1);
                assert(longer.drop_last() == data@.take(i as int));
                assert(longer.last() == b);
                lemma_gather_add(start.items(data@.take(i as int)), state@.emits(b));
            }
            state = advance(state, b, &mut text, &mut res);
            i += 1;
        }
        assert(data@.take(n as int) == data@);
        flush(&mut text, &mut res);
        self.state = state;
        res
    }
}

} // verus!
