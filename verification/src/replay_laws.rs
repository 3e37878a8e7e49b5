//! What a slot is sent with when it is confirmed and when it is finalized,
//! in terms of everything that came in for it.

use vstd::prelude::*;
use crate::block_assembly::collect_step;
use crate::commitment::CommitmentLevel;
use crate::dedup_laws::{
    insert_all, lemma_deduplicated_are_survivors, lemma_insert_all_keeps_distinct,
    other_messages, survivors,
};
use crate::geyser_loop::{LoopView, ingest_step, is_finalized_slot, publish_step};
use crate::message::{MessageSlot, MessageView};
use crate::message_store::{live_at, store_finalize, store_insert};
use crate::slot_messages::{account_position, dedup_insert, distinct_accounts, holds_account};

verus! {

/// The messages that taking `message` in enters into the store: the block
/// that the message completes, if it completes one, and the message itself
/// unless it is a slot status.
pub open spec fn entered(state: LoopView, message: MessageView) -> Seq<MessageView> {
    let block = match collect_step(state.pending, message).1 {
        Some(block) => seq![MessageView::Block(block)],
        None => Seq::empty(),
    };
    if message is Slot {
        block
    } else {
        block.push(message)
    }
}

/// Those of the messages that belong to `slot`, in order.
pub open spec fn of_slot(messages: Seq<MessageView>, slot: u64) -> Seq<MessageView> {
    messages.filter(|message: MessageView| message.slot() == slot)
}

/// The state after the messages have been taken in one by one.
pub open spec fn run(state: LoopView, messages: Seq<MessageView>) -> LoopView
    decreases messages.len(),
{
    if messages.len() == 0 {
        state
    } else {
        ingest_step(run(state, messages.drop_last()), messages.last()).0
    }
}

/// Everything that taking the messages in one by one enters into the store
/// for `slot`, in order.
pub open spec fn arrivals_for(state: LoopView, messages: Seq<MessageView>, slot: u64) -> Seq<
    MessageView,
>
    decreases messages.len(),
{
    if messages.len() == 0 {
        Seq::empty()
    } else {
        arrivals_for(state, messages.drop_last(), slot) + of_slot(
            entered(run(state, messages.drop_last()), messages.last()),
            slot,
        )
    }
}

/// The message does not finalize `slot` or a later slot.
pub open spec fn spares(message: MessageView, slot: u64) -> bool {
    !(is_finalized_slot(message) && message.slot() >= slot)
}

/// Entering one batch of arrivals after another is entering all of them.
pub proof fn lemma_insert_all_concat(
    held: Seq<MessageView>,
    first: Seq<MessageView>,
    second: Seq<MessageView>,
)
    ensures
        insert_all(held, first + second) == insert_all(insert_all(held, first), second),
    decreases second.len(),
{
    if second.len() == 0 {
        assert(first + second =~= first);
    } else {
        lemma_insert_all_concat(held, first, second.drop_last());
        assert((first + second).drop_last() =~= first + second.drop_last());
        assert((first + second).last() == second.last());
    }
}

/// Entering a message under its slot changes what is held for that slot
/// only.
proof fn lemma_store_insert(store: Map<u64, Seq<MessageView>>, message: MessageView, slot: u64)
    ensures
        live_at(store_insert(store, message), slot) == insert_all(
            live_at(store, slot),
            of_slot(seq![message], slot),
        ),
{
    let one = seq![message];
    let keep = |m: MessageView| m.slot() == slot;
    reveal(Seq::filter);
    assert(one.drop_last() =~= Seq::<MessageView>::empty());
    assert(Seq::<MessageView>::empty().filter(keep) =~= Seq::<MessageView>::empty());
    if message.slot() == slot {
        assert(one.filter(keep) =~= one);
        assert(insert_all(live_at(store, slot), one.drop_last()) == live_at(store, slot));
    } else {
        assert(one.filter(keep) =~= Seq::<MessageView>::empty());
    }
}

/// What is held for a slot after a message has been taken in, unless the
/// message finalizes that slot or a later one: what was held, with the
/// messages that were entered for the slot.
pub proof fn lemma_step_enters(state: LoopView, message: MessageView, slot: u64)
    requires
        spares(message, slot),
    ensures
        live_at(ingest_step(state, message).0.stored, slot) == insert_all(
            live_at(state.stored, slot),
            of_slot(entered(state, message), slot),
        ),
{
    let keep = |m: MessageView| m.slot() == slot;
    let (pending, block) = collect_step(state.pending, message);
    let collected = LoopView { pending, stored: state.stored, processed: state.processed };
    reveal(Seq::filter);
    assert(Seq::<MessageView>::empty().filter(keep) =~= Seq::<MessageView>::empty());
    match block {
        Some(block) => {
            let first = MessageView::Block(block);
            assert(!(message is Slot));
            let assembled = publish_step(collected, first).0;
            lemma_store_insert(state.stored, first, slot);
            lemma_store_insert(assembled.stored, message, slot);
            let both = seq![first].push(message);
            assert(entered(state, message) == both);
            assert(both =~= seq![first] + seq![message]);
            assert(both.filter(keep) =~= seq![first].filter(keep) + seq![message].filter(keep)) by {
                Seq::filter_distributes_over_add(seq![first], seq![message], keep);
            }
            lemma_insert_all_concat(
                live_at(state.stored, slot),
                of_slot(seq![first], slot),
                of_slot(seq![message], slot),
            );
        },
        None => {
            if message is Slot {
                assert(entered(state, message) =~= Seq::<MessageView>::empty());
                if is_finalized_slot(message) {
                    assert(live_at(store_finalize(state.stored, message.slot()), slot) == live_at(
                        state.stored,
                        slot,
                    ));
                }
            } else {
                assert(entered(state, message) =~= seq![message]);
                lemma_store_insert(state.stored, message, slot);
            }
        },
    }
}

/// What is held for a slot after messages have been taken in, none of which
/// finalizes that slot or a later one: what was held, with everything that
/// was entered for the slot since.
pub proof fn lemma_run_enters(state: LoopView, messages: Seq<MessageView>, slot: u64)
    requires
        forall|i: int| 0 <= i < messages.len() ==> spares(#[trigger] messages[i], slot),
    ensures
        live_at(run(state, messages).stored, slot) == insert_all(
            live_at(state.stored, slot),
            arrivals_for(state, messages, slot),
        ),
    decreases messages.len(),
{
    if messages.len() > 0 {
        let before = messages.drop_last();
        assert forall|i: int| 0 <= i < before.len() implies spares(#[trigger] before[i], slot) by {
            assert(before[i] == messages[i]);
        }
        lemma_run_enters(state, before, slot);
        lemma_step_enters(run(state, before), messages.last(), slot);
        lemma_insert_all_concat(
            live_at(state.stored, slot),
            arrivals_for(state, before, slot),
            of_slot(entered(run(state, before), messages.last()), slot),
        );
    }
}

/// Entering a message changes the messages that are no account updates only
/// at the end: such a message joins them, an account update leaves them as
/// they are.
pub proof fn lemma_insert_keeps_others(held: Seq<MessageView>, message: MessageView)
    ensures
        other_messages(dedup_insert(held, message)) == (if message is Account {
            other_messages(held)
        } else {
            other_messages(held).push(message)
        }),
{
    let keep = |m: MessageView| !(m is Account);
    let entered = dedup_insert(held, message);
    reveal(Seq::filter);
    if entered == held.push(message) {
        assert(entered.drop_last() =~= held);
    }
    if message is Account && holds_account(held, message->Account_0.account.pubkey) {
        let place = account_position(held, message->Account_0.account.pubkey);
        if entered != held {
            let shorter = held.remove(place);
            assert(entered.drop_last() =~= shorter);
            let front = held.subrange(0, place);
            let back = held.subrange(place + 1, held.len() as int);
            let one = seq![held[place]];
            assert(held =~= front + one + back);
            assert(shorter =~= front + back);
            Seq::filter_distributes_over_add(front + one, back, keep);
            Seq::filter_distributes_over_add(front, one, keep);
            Seq::filter_distributes_over_add(front, back, keep);
            assert(held[place] is Account);
            assert(one.drop_last() =~= Seq::<MessageView>::empty());
            assert(Seq::<MessageView>::empty().filter(keep) =~= Seq::<MessageView>::empty());
            assert(one.last() == held[place]);
            assert(one.filter(keep) =~= Seq::<MessageView>::empty());
            assert(front.filter(keep) + one.filter(keep) =~= front.filter(keep));
        }
    }
}

/// However many messages are entered, those that are no account updates are
/// all kept, in the order in which they arrived, behind those that were
/// held.
pub proof fn lemma_insert_all_keeps_others(held: Seq<MessageView>, arrivals: Seq<MessageView>)
    ensures
        other_messages(insert_all(held, arrivals)) == other_messages(held) + other_messages(
            arrivals,
        ),
    decreases arrivals.len(),
{
    let keep = |m: MessageView| !(m is Account);
    reveal(Seq::filter);
    if arrivals.len() == 0 {
        assert(other_messages(held) + other_messages(arrivals) =~= other_messages(held));
    } else {
        lemma_insert_all_keeps_others(held, arrivals.drop_last());
        lemma_insert_keeps_others(insert_all(held, arrivals.drop_last()), arrivals.last());
        if arrivals.last() is Account {
        } else {
            assert(other_messages(held) + other_messages(arrivals.drop_last()).push(
                arrivals.last(),
            ) =~= (other_messages(held) + other_messages(arrivals.drop_last())).push(
                arrivals.last(),
            ));
        }
    }
}

/// A slot is confirmed, more comes in, and the slot is finalized; nothing in
/// between finalizes the slot or a later one.
///
/// The confirmed batch is what was held for the slot, and the finalized
/// batch is what is held for it then, each closed by its slot status. The
/// finalized batch is the confirmed one with everything entered that came in
/// for the slot in between. So the messages of the confirmed batch that are
/// no account updates stand in the finalized batch in the same order, before
/// those that came later, and the finalized batch holds no two updates of
/// one account where the confirmed one holds none.
pub proof fn lemma_finalized_follows_confirmed(
    state: LoopView,
    slot: u64,
    parent: Option<u64>,
    between: Seq<MessageView>,
)
    requires
        state.valid(),
        forall|i: int| 0 <= i < between.len() ==> spares(#[trigger] between[i], slot),
    ensures
        ({
            let confirm = MessageView::Slot(
                MessageSlot { slot, parent, status: CommitmentLevel::Confirmed },
            );
            let finalize = MessageView::Slot(
                MessageSlot { slot, parent, status: CommitmentLevel::Finalized },
            );
            let confirmed = ingest_step(state, confirm);
            let later = run(confirmed.0, between);
            let finalized = ingest_step(later, finalize);
            let came = arrivals_for(confirmed.0, between, slot);
            let first = confirmed.1.batches[1].messages;
            let second = finalized.1.batches[2].messages;
            &&& first == live_at(state.stored, slot).push(confirm)
            &&& second == insert_all(live_at(state.stored, slot), came).push(finalize)
            &&& other_messages(second.drop_last()) == other_messages(first.drop_last())
                + other_messages(came)
            &&& distinct_accounts(first.drop_last())
            &&& distinct_accounts(second.drop_last())
            &&& !finalized.0.stored.contains_key(slot)
        }),
{
    let confirm = MessageView::Slot(
        MessageSlot { slot, parent, status: CommitmentLevel::Confirmed },
    );
    let finalize = MessageView::Slot(
        MessageSlot { slot, parent, status: CommitmentLevel::Finalized },
    );
    let confirmed = ingest_step(state, confirm);
    let later = run(confirmed.0, between);
    let finalized = ingest_step(later, finalize);
    let came = arrivals_for(confirmed.0, between, slot);
    let held = live_at(state.stored, slot);
    let first = confirmed.1.batches[1].messages;
    let second = finalized.1.batches[2].messages;
    assert(confirmed.0.stored == state.stored);
    lemma_run_enters(confirmed.0, between, slot);
    lemma_insert_all_keeps_others(held, came);
    lemma_insert_all_keeps_distinct(held, came);
    assert(first.drop_last() =~= held);
    assert(second.drop_last() =~= insert_all(held, came));
}

/// A slot that the store holds nothing of is finalized after messages have
/// come in, none of which finalizes the slot or a later one. The finalized
/// batch is then exactly the messages that came in for the slot and survive,
/// in the order in which they came, closed by the slot status.
pub proof fn lemma_finalized_are_survivors(
    state: LoopView,
    slot: u64,
    parent: Option<u64>,
    messages: Seq<MessageView>,
)
    requires
        !state.stored.contains_key(slot),
        forall|i: int| 0 <= i < messages.len() ==> spares(#[trigger] messages[i], slot),
    ensures
        ({
            let finalize = MessageView::Slot(
                MessageSlot { slot, parent, status: CommitmentLevel::Finalized },
            );
            let came = arrivals_for(state, messages, slot);
            ingest_step(run(state, messages), finalize).1.batches[2].messages == survivors(
                came,
                came.len() as int,
            ).push(finalize)
        }),
{
    let came = arrivals_for(state, messages, slot);
    lemma_run_enters(state, messages, slot);
    lemma_deduplicated_are_survivors(came);
}

} // verus!
