//! From bytes to the screen: the decoder and the terminal together.
//!
//! The screen that a stream of bytes leaves does not depend on how the stream
//! was cut into pieces on its way.

use vstd::prelude::*;
use crate::ansi::chunking::{
    after_chunks, concat_chunks, lemma_chunks_preserve_items, lemma_cut_preserves_items,
};
use crate::ansi::decoder::{gather, group, Ansi, DecoderState, Item};
use crate::turm::{Turm, TurmView};

verus! {

impl TurmView {
    /// After one item of the decoder: a byte is typed, a command is carried
    /// out, and a break changes nothing.
    pub open spec fn take_item(self, item: Item) -> TurmView {
        match item {
            Item::Byte(b) => self.typed(b),
            Item::Break => self,
            Item::Control(output) => self.apply(output),
        }
    }

    /// After a list of items, in order.
    pub open spec fn take_items(self, items: Seq<Item>) -> TurmView
        decreases items.len(),
    {
        if items.len() == 0 {
            self
        } else {
            self.take_items(items.drop_last()).take_item(items.last())
        }
    }

    /// After the bytes of a stream, decoded from `state` on.
    pub open spec fn fed(self, state: DecoderState, bytes: Seq<u8>) -> TurmView {
        self.take_items(state.items(bytes))
    }

    /// After the pieces of a stream, each decoded and carried out in its own
    /// call.
    pub open spec fn fed_chunks(self, state: DecoderState, chunks: Seq<Seq<u8>>) -> TurmView
        decreases chunks.len(),
    {
        if chunks.len() == 0 {
            self
        } else {
            self.fed_chunks(state, chunks.drop_last()).apply_all(
                group(after_chunks(state, chunks.drop_last()).items(chunks.last())),
            )
        }
    }
}

/// Carrying out two lists of items, one after the other, is carrying out
/// both at once.
pub proof fn lemma_take_items_add(turm: TurmView, x: Seq<Item>, y: Seq<Item>)
    ensures
        turm.take_items(x + y) == turm.take_items(x).take_items(y),
    decreases y.len(),
{
    if y.len() == 0 {
        assert(x + y == x);
    } else {
        lemma_take_items_add(turm, x, y.drop_last());
        assert((x + y).drop_last() == x + y.drop_last());
        assert((x + y).last() == y.last());
    }
}

/// Carrying out the runs of a list of items: the complete outputs, then the
/// text of the open run.
proof fn lemma_apply_runs(turm: TurmView, items: Seq<Item>)
    ensures
        turm.apply_all(gather(items).done).typed_all(gather(items).pending) == turm.take_items(
            items,
        ),
        turm.apply_all(gather(items).close()) == turm.take_items(items),
    decreases items.len(),
{
    if items.len() > 0 {
        let shorter = items.drop_last();
        lemma_apply_runs(turm, shorter);
        let runs = gather(shorter);
        let closed = runs.close();
        assert(turm.apply_all(closed) == turm.take_items(shorter));
        match items.last() {
            Item::Byte(b) => {
                assert(runs.pending.push(b).drop_last() == runs.pending);
            },
            Item::Break => {},
            Item::Control(output) => {
                assert(closed.push(output).drop_last() == closed);
            },
        }
    }
    let all = gather(items);
    if all.pending.len() > 0 {
        assert(all.close().drop_last() == all.done);
    }
}

/// The outputs of the decoder do to the terminal what its items do, one by
/// one: gathering text into runs changes nothing on the screen.
pub proof fn lemma_group_is_faithful(turm: TurmView, items: Seq<Item>)
    ensures
        turm.apply_all(group(items)) == turm.take_items(items),
{
    lemma_apply_runs(turm, items);
}

/// A stream cut in two, each half decoded and carried out in its own call,
/// leaves the terminal that the uncut stream leaves.
pub proof fn lemma_cut_preserves_screen(
    turm: TurmView,
    state: DecoderState,
    a: Seq<u8>,
    b: Seq<u8>,
)
    ensures
        turm.apply_all(group(state.items(a))).apply_all(group(state.after(a).items(b)))
            == turm.apply_all(group(state.items(a + b))),
{
    lemma_cut_preserves_items(state, a, b);
    lemma_group_is_faithful(turm, state.items(a));
    lemma_group_is_faithful(turm.take_items(state.items(a)), state.after(a).items(b));
    lemma_group_is_faithful(turm, state.items(a + b));
    lemma_take_items_add(turm, state.items(a), state.after(a).items(b));
}

/// However a stream is cut into consecutive pieces, decoding and carrying
/// out the pieces one by one leaves the terminal that the whole stream
/// leaves when it is decoded and carried out in one call.
pub proof fn lemma_chunks_preserve_screen(
    turm: TurmView,
    state: DecoderState,
    chunks: Seq<Seq<u8>>,
)
    ensures
        turm.fed_chunks(state, chunks) == turm.apply_all(
            group(state.items(concat_chunks(chunks))),
        ),
        turm.fed_chunks(state, chunks) == turm.fed(state, concat_chunks(chunks)),
    decreases chunks.len(),
{
    lemma_group_is_faithful(turm, state.items(concat_chunks(chunks)));
    if chunks.len() > 0 {
        let shorter = chunks.drop_last();
        lemma_chunks_preserve_screen(turm, state, shorter);
        lemma_chunks_preserve_items(state, shorter);
        lemma_cut_preserves_screen(turm, state, concat_chunks(shorter), chunks.last());
    }
}

/// Decodes the next bytes of the stream and carries out what they ask for.
pub fn feed(ansi: &mut Ansi, turm: &mut Turm, data: &[u8])
    requires
        old(turm).wf(),
    ensures
        final(turm).wf(),
        final(ansi)@ == old(ansi)@.after(data@),
        final(turm)@ == old(turm)@.fed(old(ansi)@, data@),
{
    proof {
        lemma_group_is_faithful(turm@, ansi@.items(data@));
    }
    let outputs = ansi.push(data);
    turm.parse(outputs);
}

} // verus!
