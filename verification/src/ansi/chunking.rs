//! How the decoder's results for a stream relate to its results for the
//! pieces of that stream.
//!
//! Byte by byte the decoder does not see where a call of
//! [`Ansi::push`](crate::ansi::Ansi::push) ends: the items that a stream
//! gives out are those of its pieces, one after the other. The outputs differ
//! in one way only. A call closes the run of text that is open when its
//! bytes end, so a run that a cut goes through comes out as two `Text`s
//! where the uncut stream gives one.

use vstd::prelude::*;
use crate::ansi::decoder::{gather, group, DecoderState, Item, Runs};
use crate::ansi::Output;

verus! {

/// The pieces put back together.
pub open spec fn concat_chunks(chunks: Seq<Seq<u8>>) -> Seq<u8>
    decreases chunks.len(),
{
    if chunks.len() == 0 {
        Seq::<u8>::empty()
    } else {
        concat_chunks(chunks.drop_last()) + chunks.last()
    }
}

/// The state after the pieces were pushed one by one.
pub open spec fn after_chunks(start: DecoderState, chunks: Seq<Seq<u8>>) -> DecoderState
    decreases chunks.len(),
{
    if chunks.len() == 0 {
        start
    } else {
        after_chunks(start, chunks.drop_last()).after(chunks.last())
    }
}

/// The items of the pieces, pushed one by one, in order.
pub open spec fn items_of_chunks(start: DecoderState, chunks: Seq<Seq<u8>>) -> Seq<Item>
    decreases chunks.len(),
{
    if chunks.len() == 0 {
        Seq::<Item>::empty()
    } else {
        items_of_chunks(start, chunks.drop_last()) + after_chunks(
            start,
            chunks.drop_last(),
        ).items(chunks.last())
    }
}

/// Whether a cut between `left` and `right` goes through a run of text: the
/// last item before it and the first after it are both bytes.
pub open spec fn straddles(left: Seq<Item>, right: Seq<Item>) -> bool {
    left.len() > 0 && right.len() > 0 && left.last() is Byte && right.first() is Byte
}

/// The outputs of two pieces with the run at the cut made one again: the
/// last `Text` on the left and the first on the right become a single
/// `Text`.
pub open spec fn join(left: Seq<Output>, right: Seq<Output>) -> Seq<Output>
    recommends
        left.len() > 0,
        right.len() > 0,
        left.last() is Text,
        right.first() is Text,
{
    left.drop_last().push(Output::Text(left.last()->Text_0 + right.first()->Text_0))
        + right.drop_first()
}

/// Whether some item ends a run: a break or a command.
pub open spec fn closes(items: Seq<Item>) -> bool {
    exists|i: int| 0 <= i < items.len() && !(#[trigger] items[i] is Byte)
}

/// Cutting the stream in two changes neither the state that the decoder ends
/// in nor the items it gives out.
pub proof fn lemma_cut_preserves_items(start: DecoderState, a: Seq<u8>, b: Seq<u8>)
    ensures
        start.after(a + b) == start.after(a).after(b),
        start.items(a + b) == start.items(a) + start.after(a).items(b),
    decreases b.len(),
{
    if b.len() == 0 {
        assert(a + b == a);
        assert(start.items(a) + Seq::<Item>::empty() == start.items(a));
    } else {
        let shorter = b.drop_last();
        lemma_cut_preserves_items(start, a, shorter);
        assert((a + b).drop_last() == a + shorter);
        assert((a + b).last() == b.last());
        let mid = start.after(a);
        assert(start.items(a + b) == start.items(a) + mid.items(shorter) + mid.after(
            shorter,
        ).emits(b.last()));
        assert(start.items(a) + mid.items(shorter) + mid.after(shorter).emits(b.last())
            == start.items(a) + (mid.items(shorter) + mid.after(shorter).emits(b.last())));
    }
}

/// However a stream is cut into consecutive pieces, pushing the pieces one by
/// one leaves the decoder in the state that the whole stream leaves it in,
/// and gives out the same items in the same order.
pub proof fn lemma_chunks_preserve_items(start: DecoderState, chunks: Seq<Seq<u8>>)
    ensures
        after_chunks(start, chunks) == start.after(concat_chunks(chunks)),
        items_of_chunks(start, chunks) == start.items(concat_chunks(chunks)),
    decreases chunks.len(),
{
    if chunks.len() > 0 {
        lemma_chunks_preserve_items(start, chunks.drop_last());
        lemma_cut_preserves_items(start, concat_chunks(chunks.drop_last()), chunks.last());
    }
}

/// What is known of the runs of a list: the open run has bytes exactly when
/// the last item is a byte; without a break or a command no output is
/// complete; and where the first item is a byte and something closes its
/// run, the first output is a `Text`.
proof fn lemma_gather_shape(items: Seq<Item>)
    ensures
        gather(items).pending.len() > 0 <==> items.len() > 0 && items.last() is Byte,
        !closes(items) ==> gather(items).done.len() == 0,
        closes(items) && items[0] is Byte ==> gather(items).done.len() > 0 && gather(
            items,
        ).done[0] is Text,
    decreases items.len(),
{
    if items.len() > 0 {
        let shorter = items.drop_last();
        lemma_gather_shape(shorter);
        if closes(shorter) {
            let i = choose|i: int| 0 <= i < shorter.len() && !(#[trigger] shorter[i] is Byte);
            assert(!(items[i] is Byte));
        }
        if closes(items) && !closes(shorter) {
            let i = choose|i: int| 0 <= i < items.len() && !(#[trigger] items[i] is Byte);
            if i < shorter.len() {
                assert(!(shorter[i] is Byte));
            }
            assert(!(items.last() is Byte));
            if items[0] is Byte {
                assert(shorter.len() > 0);
                assert(shorter[0] is Byte);
                assert(shorter.last() is Byte) by {
                    if !(shorter.last() is Byte) {
                        assert(!(shorter[shorter.len() - 1] is Byte));
                    }
                }
            }
        }
        if !closes(items) {
            if !(items.last() is Byte) {
                assert(!(items[items.len() - 1] is Byte));
            }
        }
        if closes(items) && items[0] is Byte && closes(shorter) {
            assert(shorter[0] is Byte);
        }
    } else {
        if closes(items) {
            let i = choose|i: int| 0 <= i < items.len() && !(#[trigger] items[i] is Byte);
        }
    }
}

/// The runs of two lists laid end to end, from the runs of each.
proof fn lemma_gather_cut(x: Seq<Item>, y: Seq<Item>)
    ensures
        gather(x + y) == if !closes(y) {
            Runs { done: gather(x).done, pending: gather(x).pending + gather(y).pending }
        } else if y[0] is Byte {
            Runs {
                done: gather(x).done.push(
                    Output::Text(gather(x).pending + gather(y).done[0]->Text_0),
                ) + gather(y).done.drop_first(),
                pending: gather(y).pending,
            }
        } else {
            Runs { done: gather(x).close() + gather(y).done, pending: gather(y).pending }
        },
    decreases y.len(),
{
    let gx = gather(x);
    if y.len() == 0 {
        assert(x + y == x);
        assert(gx.pending + Seq::<u8>::empty() == gx.pending);
        if closes(y) {
            let i = choose|i: int| 0 <= i < y.len() && !(#[trigger] y[i] is Byte);
        }
    } else {
        let shorter = y.drop_last();
        let item = y.last();
        lemma_gather_cut(x, shorter);
        lemma_gather_shape(shorter);
        lemma_gather_shape(y);
        assert((x + y).drop_last() == x + shorter);
        assert((x + y).last() == item);
        let gs = gather(shorter);
        if closes(shorter) {
            let i = choose|i: int| 0 <= i < shorter.len() && !(#[trigger] shorter[i] is Byte);
            assert(!(y[i] is Byte));
            assert(y[0] == shorter[0]);
            if y[0] is Byte {
                let head = gx.done.push(Output::Text(gx.pending + gs.done[0]->Text_0));
                let rest = gs.done.drop_first();
                match item {
                    Item::Byte(b) => {},
                    Item::Break => {
                        if gs.pending.len() > 0 {
                            assert((head + rest).push(Output::Text(gs.pending)) == head
                                + gs.close().drop_first());
                        }
                    },
                    Item::Control(output) => {
                        if gs.pending.len() > 0 {
                            assert((head + rest).push(Output::Text(gs.pending)).push(output)
                                == head + gs.close().push(output).drop_first());
                        } else {
                            assert((head + rest).push(output) == head + gs.done.push(
                                output,
                            ).drop_first());
                        }
                    },
                }
            } else {
                match item {
                    Item::Byte(b) => {},
                    Item::Break => {
                        if gs.pending.len() > 0 {
                            assert((gx.close() + gs.done).push(Output::Text(gs.pending))
                                == gx.close() + gs.close());
                        }
                    },
                    Item::Control(output) => {
                        if gs.pending.len() > 0 {
                            assert((gx.close() + gs.done).push(Output::Text(gs.pending)).push(
                                output,
                            ) == gx.close() + gs.close().push(output));
                        } else {
                            assert((gx.close() + gs.done).push(output) == gx.close()
                                + gs.done.push(output));
                        }
                    },
                }
            }
        } else {
            assert(gs.done.len() == 0);
            let merged = Runs { done: gx.done, pending: gx.pending + gs.pending };
            match item {
                Item::Byte(b) => {
                    assert(!closes(y)) by {
                        if closes(y) {
                            let i = choose|i: int| 0 <= i < y.len() && !(#[trigger] y[i] is Byte);
                            if i < shorter.len() {
                                assert(!(shorter[i] is Byte));
                            }
                        }
                    }
                    assert((gx.pending + gs.pending).push(b) == gx.pending + gs.pending.push(b));
                },
                _ => {
                    assert(!(y[y.len() - 1] is Byte));
                    assert(closes(y));
                    if shorter.len() == 0 {
                        assert(y[0] == item);
                        assert(gs.pending.len() == 0);
                        assert(gx.pending + gs.pending == gx.pending);
                        match item {
                            Item::Control(output) => {
                                assert(gather(y).done == seq![output]);
                                assert(gx.close() + seq![output] == gx.close().push(output));
                            },
                            _ => {
                                assert(gather(y).done == Seq::<Output>::empty());
                                assert(gx.close() + Seq::<Output>::empty() == gx.close());
                            },
                        }
                    } else {
                        assert(y[0] == shorter[0]);
                        assert(shorter[0] is Byte) by {
                            if !(shorter[0] is Byte) {
                                assert(closes(shorter));
                            }
                        }
                        assert(shorter.last() is Byte) by {
                            if !(shorter.last() is Byte) {
                                assert(!(shorter[shorter.len() - 1] is Byte));
                            }
                        }
                        assert(gs.pending.len() > 0);
                        assert(merged.close() == gx.done.push(
                            Output::Text(gx.pending + gs.pending),
                        ));
                        match item {
                            Item::Control(output) => {
                                assert(gather(y).done == seq![Output::Text(gs.pending), output]);
                                assert(gather(y).done.drop_first() == seq![output]);
                                assert(merged.close().push(output) == gx.done.push(
                                    Output::Text(gx.pending + gs.pending),
                                ) + seq![output]);
                            },
                            _ => {
                                assert(gather(y).done == seq![Output::Text(gs.pending)]);
                                assert(gather(y).done.drop_first() == Seq::<Output>::empty());
                                assert(merged.close() == gx.done.push(
                                    Output::Text(gx.pending + gs.pending),
                                ) + Seq::<Output>::empty());
                            },
                        }
                    }
                },
            }
        }
    }
}

/// The outputs of two lists of items laid end to end are the outputs of the
/// one followed by those of the other, but where the cut goes through a run
/// of text: there the two halves of that run are one `Text`.
pub proof fn lemma_group_add(x: Seq<Item>, y: Seq<Item>)
    ensures
        group(x + y) == if straddles(x, y) {
            join(group(x), group(y))
        } else {
            group(x) + group(y)
        },
{
    lemma_gather_cut(x, y);
    lemma_gather_shape(x);
    lemma_gather_shape(y);
    let gx = gather(x);
    let gy = gather(y);
    if y.len() == 0 {
        assert(!closes(y)) by {
            if closes(y) {
                let i = choose|i: int| 0 <= i < y.len() && !(#[trigger] y[i] is Byte);
            }
        }
        assert(gx.pending + gy.pending == gx.pending);
        assert(group(x) + group(y) == group(x));
    } else if !closes(y) {
        assert(y[0] is Byte) by {
            if !(y[0] is Byte) {
                assert(closes(y));
            }
        }
        assert(y.last() is Byte) by {
            if !(y.last() is Byte) {
                assert(!(y[y.len() - 1] is Byte));
            }
        }
        assert(group(y) == seq![Output::Text(gy.pending)]);
        if straddles(x, y) {
            assert(group(x) == gx.done.push(Output::Text(gx.pending)));
            assert(group(x).drop_last() == gx.done);
            assert(group(y).drop_first() == Seq::<Output>::empty());
            assert(join(group(x), group(y)) == gx.done.push(
                Output::Text(gx.pending + gy.pending),
            ));
        } else {
            assert(gx.pending.len() == 0);
            assert(gx.pending + gy.pending == gy.pending);
            assert(gx.done.push(Output::Text(gy.pending)) == gx.done + seq![
                Output::Text(gy.pending),
            ]);
        }
    } else if y[0] is Byte {
        let first = gy.done[0]->Text_0;
        let head = gx.done.push(Output::Text(gx.pending + first));
        assert(group(y).first() == gy.done[0]);
        if straddles(x, y) {
            assert(group(x) == gx.done.push(Output::Text(gx.pending)));
            assert(group(x).drop_last() == gx.done);
            assert(group(y).drop_first() == gy.close().drop_first());
            if gy.pending.len() > 0 {
                assert((head + gy.done.drop_first()).push(Output::Text(gy.pending)) == head
                    + gy.close().drop_first());
            }
        } else {
            assert(gx.pending.len() == 0);
            assert(gx.pending + first == first);
            assert(group(x) == gx.done);
            if gy.pending.len() > 0 {
                assert((head + gy.done.drop_first()).push(Output::Text(gy.pending)) == gx.done
                    + gy.close());
            } else {
                assert(head + gy.done.drop_first() == gx.done + gy.done);
            }
        }
    } else {
        assert(!straddles(x, y));
        if gy.pending.len() > 0 {
            assert((gx.close() + gy.done).push(Output::Text(gy.pending)) == gx.close()
                + gy.close());
        }
    }
}

/// The outputs of a stream pushed in one call, from the outputs of its two
/// halves pushed one after the other: the same outputs in the same order,
/// with the halves of a run of text that the cut goes through as one `Text`.
/// So the two calls give the outputs of the one call exactly when the cut
/// goes through no run of text.
pub proof fn lemma_cut_preserves_outputs(start: DecoderState, a: Seq<u8>, b: Seq<u8>)
    ensures
        group(start.items(a + b)) == if straddles(start.items(a), start.after(a).items(b)) {
            join(group(start.items(a)), group(start.after(a).items(b)))
        } else {
            group(start.items(a)) + group(start.after(a).items(b))
        },
        straddles(start.items(a), start.after(a).items(b)) <==> group(start.items(a + b))
            != group(start.items(a)) + group(start.after(a).items(b)),
{
    let x = start.items(a);
    let y = start.after(a).items(b);
    lemma_cut_preserves_items(start, a, b);
    lemma_group_add(x, y);
    if straddles(x, y) {
        lemma_gather_shape(x);
        lemma_gather_shape(y);
        assert(group(x).len() > 0);
        assert(group(y).len() > 0) by {
            if closes(y) {
            } else {
                assert(y.last() is Byte) by {
                    if !(y.last() is Byte) {
                        assert(!(y[y.len() - 1] is Byte));
                    }
                }
            }
        }
        assert(join(group(x), group(y)).len() == group(x).len() + group(y).len() - 1);
    }
}

/// The outputs of the pieces, each pushed in its own call, in order.
pub open spec fn outputs_of_chunks(start: DecoderState, chunks: Seq<Seq<u8>>) -> Seq<Output>
    decreases chunks.len(),
{
    if chunks.len() == 0 {
        Seq::<Output>::empty()
    } else {
        outputs_of_chunks(start, chunks.drop_last()) + group(
            after_chunks(start, chunks.drop_last()).items(chunks.last()),
        )
    }
}

/// Whether no cut between two pieces goes through a run of text.
pub open spec fn cuts_spare_text(start: DecoderState, chunks: Seq<Seq<u8>>) -> bool
    decreases chunks.len(),
{
    if chunks.len() == 0 {
        true
    } else {
        cuts_spare_text(start, chunks.drop_last()) && !straddles(
            items_of_chunks(start, chunks.drop_last()),
            after_chunks(start, chunks.drop_last()).items(chunks.last()),
        )
    }
}

/// However a stream is cut into consecutive pieces, as long as no cut goes
/// through a run of text, pushing the pieces one by one gives the outputs of
/// the whole stream pushed in one call.
pub proof fn lemma_chunks_preserve_outputs(start: DecoderState, chunks: Seq<Seq<u8>>)
    requires
        cuts_spare_text(start, chunks),
    ensures
        outputs_of_chunks(start, chunks) == group(start.items(concat_chunks(chunks))),
    decreases chunks.len(),
{
    if chunks.len() > 0 {
        let shorter = chunks.drop_last();
        lemma_chunks_preserve_outputs(start, shorter);
        lemma_chunks_preserve_items(start, shorter);
        lemma_chunks_preserve_items(start, chunks);
        lemma_group_add(
            items_of_chunks(start, shorter),
            after_chunks(start, shorter).items(chunks.last()),
        );
    }
}

} // verus!
