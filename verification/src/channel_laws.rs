//! What holds of the batches of the broadcast loop, whatever comes in.

use vstd::prelude::*;
use crate::block_assembly::collect_step;
use crate::commitment::CommitmentLevel;
use crate::geyser_loop::{
    BatchView, LoopView, ingest_step, lemma_publish_keeps_valid, no_slot_status, publish_step,
    slot_batches,
};
use crate::message::MessageView;
use crate::message_store::live_at;

verus! {

/// The message is the last of the sequence, and the only slot status in it.
pub open spec fn closes(messages: Seq<MessageView>, message: MessageView) -> bool {
    &&& messages.len() > 0
    &&& messages.last() == message
    &&& no_slot_status(messages.drop_last())
}

/// A slot status goes out exactly once on each of the three channels: it
/// makes three batches, one at each commitment level, and each of them holds
/// the slot status as its last message and no other slot status. Any other
/// message makes at most one batch, which holds no slot status.
pub proof fn lemma_slot_status_on_every_channel(state: LoopView, message: MessageView)
    requires
        state.valid(),
    ensures
        message is Slot ==> {
            let batches = ingest_step(state, message).1.batches;
            &&& batches.len() == 3
            &&& batches[0].commitment == CommitmentLevel::Processed
            &&& batches[1].commitment == CommitmentLevel::Confirmed
            &&& batches[2].commitment == CommitmentLevel::Finalized
            &&& closes(batches[0].messages, message)
            &&& closes(batches[1].messages, message)
            &&& closes(batches[2].messages, message)
        },
        !(message is Slot) ==> {
            let batches = ingest_step(state, message).1.batches;
            &&& batches.len() <= 1
            &&& forall|i: int|
                0 <= i < batches.len() ==> (#[trigger] batches[i]).commitment
                    == CommitmentLevel::Processed && no_slot_status(batches[i].messages)
        },
{
    let batches = ingest_step(state, message).1.batches;
    if message is Slot {
        let pending = ingest_step(state, message).0.pending;
        let ready = LoopView { pending, stored: state.stored, processed: state.processed };
        assert(batches =~= slot_batches(ready, message));
        let held = live_at(state.stored, message.slot());
        assert(no_slot_status(held));
        assert(batches[0].messages.drop_last() =~= state.processed);
        assert(batches[1].messages.drop_last() =~= held || batches[1].messages.drop_last()
            =~= Seq::<MessageView>::empty());
        assert(batches[2].messages.drop_last() =~= held || batches[2].messages.drop_last()
            =~= Seq::<MessageView>::empty());
    } else {
        let (pending, block) = collect_step(state.pending, message);
        let collected = LoopView { pending, stored: state.stored, processed: state.processed };
        match block {
            Some(block) => {
                let first = publish_step(collected, MessageView::Block(block));
                lemma_publish_keeps_valid(collected, MessageView::Block(block));
                let ready = LoopView {
                    pending: first.0.pending,
                    stored: first.0.stored,
                    processed: first.0.processed,
                };
                let second = publish_step(ready, message);
                assert(batches =~= first.1 + second.1);
                lemma_single_batch(collected, MessageView::Block(block));
                lemma_single_batch(ready, message);
                if first.1.len() == 1 {
                    assert(ready.processed.len() == 0);
                    assert(second.1.len() == 0);
                }
            },
            None => {
                let ready = collected;
                assert(batches =~= Seq::<BatchView>::empty() + publish_step(ready, message).1);
                lemma_single_batch(ready, message);
            },
        }
    }
}

/// Publishing a message that is no slot status makes at most one batch, at
/// processed commitment and without a slot status.
proof fn lemma_single_batch(state: LoopView, message: MessageView)
    requires
        state.valid(),
        !(message is Slot),
    ensures
        publish_step(state, message).1.len() <= 1,
        forall|i: int|
            0 <= i < publish_step(state, message).1.len() ==> (#[trigger] publish_step(
                state,
                message,
            ).1[i]).commitment == CommitmentLevel::Processed && no_slot_status(
                publish_step(state, message).1[i].messages,
            ),
{
    let waiting = state.processed.push(message);
    assert forall|i: int| 0 <= i < waiting.len() implies !(#[trigger] waiting[i] is Slot) by {
        if i < state.processed.len() {
            assert(waiting[i] == state.processed[i]);
        }
    }
}

} // verus!
