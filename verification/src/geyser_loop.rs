//! The broadcast loop: every message that comes in is turned into the
//! batches that go out on the three commitment channels.
//!
//! The loop itself waits for messages and for its timer elsewhere; here are
//! its state and the two steps that it takes, on a message and on the timer.

use vstd::prelude::*;
use crate::block_assembly::{BlockAssembler, PendingBlockView, collect_step, finalize_step};
use crate::commitment::CommitmentLevel;
use crate::dedup_laws::lemma_insert_keeps_distinct;
use crate::message::{Message, MessageView, message_views};
use crate::message_store::{MessageStore, live_at, store_finalize, store_insert};
use crate::slot_messages::{account_position, dedup_insert, distinct_accounts};

verus! {

/// A batch at processed commitment goes out as soon as it holds this many
/// messages.
pub const PROCESSED_MESSAGES_MAX: usize = 31;

/// A batch at processed commitment goes out at the latest this many
/// milliseconds after the one before.
pub const PROCESSED_MESSAGES_SLEEP_MS: u64 = 10;

/// Messages that go out together on one commitment channel.
#[derive(Debug)]
pub struct Batch {
    pub commitment: CommitmentLevel,
    pub messages: Vec<Message>,
}

#[verifier::ext_equal]
pub struct BatchView {
    pub commitment: CommitmentLevel,
    pub messages: Seq<MessageView>,
}

impl View for Batch {
    type V = BatchView;

    open spec fn view(&self) -> BatchView {
        BatchView { commitment: self.commitment, messages: message_views(self.messages@) }
    }
}

/// The views of a sequence of batches, one for one.
pub open spec fn batch_views(batches: Seq<Batch>) -> Seq<BatchView> {
    Seq::new(batches.len(), |i: int| batches[i]@)
}

/// What the loop has to do after it has taken a message in.
#[derive(Debug)]
pub struct LoopOutput {
    /// A copy of the message for the block-metadata cache, where the message
    /// is a slot status or the metadata of a block.
    pub block_meta: Option<Message>,
    /// The number of transactions that an invalid full block was left with,
    /// where finalizing a slot has uncovered one.
    pub invalid_full_block: Option<usize>,
    /// The batches to publish, in this order.
    pub batches: Vec<Batch>,
}

#[verifier::ext_equal]
pub struct LoopOutputView {
    pub block_meta: Option<MessageView>,
    pub invalid_full_block: Option<nat>,
    pub batches: Seq<BatchView>,
}

impl View for LoopOutput {
    type V = LoopOutputView;

    open spec fn view(&self) -> LoopOutputView {
        LoopOutputView {
            block_meta: match self.block_meta {
                Some(message) => Some(message@),
                None => None,
            },
            invalid_full_block: match self.invalid_full_block {
                Some(left) => Some(left as nat),
                None => None,
            },
            batches: batch_views(self.batches@),
        }
    }
}

impl LoopOutput {
    /// Whether the timer of the processed channel starts anew: it does
    /// whenever something is published.
    pub fn resets_timer(&self) -> (resets: bool)
        ensures
            resets == (self@.batches.len() > 0),
    {
        self.batches.len() > 0
    }
}

/// The state of the loop.
#[verifier::ext_equal]
pub struct LoopView {
    /// The blocks that are being put together, by slot.
    pub pending: Map<u64, PendingBlockView>,
    /// The deduplicated messages of the slots that are not finalized.
    pub stored: Map<u64, Seq<MessageView>>,
    /// The messages that wait for the next batch at processed commitment.
    pub processed: Seq<MessageView>,
}

/// No message in the sequence is a slot status.
pub open spec fn no_slot_status(messages: Seq<MessageView>) -> bool {
    forall|i: int| 0 <= i < messages.len() ==> !(#[trigger] messages[i] is Slot)
}

impl LoopView {
    /// The state of a loop that has seen nothing yet.
    pub open spec fn start() -> LoopView {
        LoopView { pending: Map::empty(), stored: Map::empty(), processed: Seq::empty() }
    }

    /// What holds of the state of the loop at any time: fewer messages wait
    /// than make a batch, no slot status waits or is stored, and no slot is
    /// stored with two updates of one account.
    pub open spec fn valid(self) -> bool {
        &&& no_slot_status(self.processed)
        &&& self.processed.len() < PROCESSED_MESSAGES_MAX
        &&& forall|slot: u64| #[trigger]
            self.stored.contains_key(slot) ==> no_slot_status(self.stored[slot])
                && distinct_accounts(self.stored[slot])
    }
}

/// The message reports that its slot is finalized.
pub open spec fn is_finalized_slot(message: MessageView) -> bool {
    message matches MessageView::Slot(slot) && slot.status == CommitmentLevel::Finalized
}

/// The message goes on to the block-metadata cache.
pub open spec fn forwarded(message: MessageView) -> bool {
    message is Slot || message is BlockMeta
}

/// The three batches that a slot status goes out with, one on each channel.
///
/// The processed batch is what was waiting. The confirmed batch holds what
/// is stored for the slot if the slot is confirmed, the finalized batch
/// holds it if the slot is finalized, and otherwise they hold nothing. The
/// slot status closes each of the three.
pub open spec fn slot_batches(state: LoopView, message: MessageView) -> Seq<BatchView> {
    let slot = message->Slot_0;
    let held = live_at(state.stored, slot.slot);
    let confirmed = if slot.status == CommitmentLevel::Confirmed {
        held
    } else {
        Seq::empty()
    };
    let finalized = if slot.status == CommitmentLevel::Finalized {
        held
    } else {
        Seq::empty()
    };
    seq![
        BatchView {
            commitment: CommitmentLevel::Processed,
            messages: state.processed.push(message),
        },
        BatchView { commitment: CommitmentLevel::Confirmed, messages: confirmed.push(message) },
        BatchView { commitment: CommitmentLevel::Finalized, messages: finalized.push(message) },
    ]
}

/// Publishing one message.
///
/// A slot status goes out on all three channels at once, and a finalized
/// slot takes the stored slots up to and including itself with it. Any other
/// message is stored under its slot and joins the waiting messages, which go
/// out as a batch at processed commitment once there are enough of them.
pub open spec fn publish_step(state: LoopView, message: MessageView) -> (LoopView, Seq<BatchView>) {
    if message is Slot {
        (
            LoopView {
                pending: state.pending,
                stored: if is_finalized_slot(message) {
                    store_finalize(state.stored, message.slot())
                } else {
                    state.stored
                },
                processed: Seq::empty(),
            },
            slot_batches(state, message),
        )
    } else {
        let waiting = state.processed.push(message);
        let stored = store_insert(state.stored, message);
        if waiting.len() >= PROCESSED_MESSAGES_MAX {
            (
                LoopView { pending: state.pending, stored, processed: Seq::empty() },
                seq![BatchView { commitment: CommitmentLevel::Processed, messages: waiting }],
            )
        } else {
            (LoopView { pending: state.pending, stored, processed: waiting }, Seq::empty())
        }
    }
}

/// Taking one message in.
///
/// A transaction or the metadata of a block is collected first, and a block
/// that this completes is published before the message itself. A finalized
/// slot drops the pending blocks up to and including itself before it is
/// published.
pub open spec fn ingest_step(state: LoopView, message: MessageView) -> (LoopView, LoopOutputView) {
    let (pending, block) = collect_step(state.pending, message);
    let collected = LoopView { pending, stored: state.stored, processed: state.processed };
    let (assembled, first) = match block {
        Some(block) => publish_step(collected, MessageView::Block(block)),
        None => (collected, Seq::empty()),
    };
    let (trimmed, invalid) = if is_finalized_slot(message) {
        finalize_step(assembled.pending, message.slot())
    } else {
        (assembled.pending, None)
    };
    let ready = LoopView {
        pending: trimmed,
        stored: assembled.stored,
        processed: assembled.processed,
    };
    let (after, second) = publish_step(ready, message);
    (
        after,
        LoopOutputView {
            block_meta: if forwarded(message) {
                Some(message)
            } else {
                None
            },
            invalid_full_block: invalid,
            batches: first + second,
        },
    )
}

/// The timer of the processed channel has run out: what is waiting goes out,
/// if anything is.
pub open spec fn timer_step(state: LoopView) -> (LoopView, Option<BatchView>) {
    (
        LoopView { pending: state.pending, stored: state.stored, processed: Seq::empty() },
        if state.processed.len() > 0 {
            Some(BatchView { commitment: CommitmentLevel::Processed, messages: state.processed })
        } else {
            None
        },
    )
}

/// Entering a message that is no slot status leaves a sequence without slot
/// statuses.
pub proof fn lemma_insert_keeps_no_slot_status(live: Seq<MessageView>, message: MessageView)
    requires
        no_slot_status(live),
        !(message is Slot),
    ensures
        no_slot_status(dedup_insert(live, message)),
{
    let after = dedup_insert(live, message);
    if after == live {
    } else if after == live.push(message) {
        assert forall|i: int| 0 <= i < after.len() implies !(#[trigger] after[i] is Slot) by {
            if i < live.len() {
                assert(after[i] == live[i]);
            }
        }
    } else {
        let key = message->Account_0.account.pubkey;
        let held = account_position(live, key);
        let shorter = live.remove(held);
        assert(after == shorter.push(message));
        assert forall|i: int| 0 <= i < after.len() implies !(#[trigger] after[i] is Slot) by {
            if i < shorter.len() {
                if i < held {
                    assert(after[i] == live[i]);
                } else {
                    assert(after[i] == live[i + 1]);
                }
            }
        }
    }
}

/// Publishing a message leaves a valid state valid.
pub proof fn lemma_publish_keeps_valid(state: LoopView, message: MessageView)
    requires
        state.valid(),
    ensures
        publish_step(state, message).0.valid(),
{
    if message is Slot {
    } else {
        let held = live_at(state.stored, message.slot());
        lemma_insert_keeps_no_slot_status(held, message);
        lemma_insert_keeps_distinct(held, message);
        let waiting = state.processed.push(message);
        assert forall|i: int| 0 <= i < waiting.len() implies !(#[trigger] waiting[i] is Slot) by {
            if i < state.processed.len() {
                assert(waiting[i] == state.processed[i]);
            }
        }
    }
}

/// The loop starts in a valid state and stays in one, whatever comes in and
/// whenever the timer runs out.
pub proof fn lemma_loop_stays_valid(state: LoopView, message: MessageView)
    requires
        state.valid(),
    ensures
        LoopView::start().valid(),
        ingest_step(state, message).0.valid(),
        timer_step(state).0.valid(),
{
    let (pending, block) = collect_step(state.pending, message);
    let collected = LoopView { pending, stored: state.stored, processed: state.processed };
    let assembled = match block {
        Some(block) => {
            lemma_publish_keeps_valid(collected, MessageView::Block(block));
            publish_step(collected, MessageView::Block(block)).0
        },
        None => collected,
    };
    let ready = LoopView {
        pending: ingest_step(state, message).0.pending,
        stored: assembled.stored,
        processed: assembled.processed,
    };
    lemma_publish_keeps_valid(ready, message);
}

/// The state of the broadcast loop.
pub struct GeyserLoop {
    assembler: BlockAssembler,
    store: MessageStore,
    processed: Vec<Message>,
}

impl View for GeyserLoop {
    type V = LoopView;

    closed spec fn view(&self) -> LoopView {
        LoopView {
            pending: self.assembler@,
            stored: self.store@,
            processed: message_views(self.processed@),
        }
    }
}

impl GeyserLoop {
    /// The stored slots are well-formed and the state is valid.
    pub closed spec fn wf(&self) -> bool {
        self.store.wf() && self@.valid()
    }

    /// A well-formed loop is in a valid state.
    pub proof fn lemma_valid(&self)
        requires
            self.wf(),
        ensures
            self@.valid(),
    {
    }

    /// A loop that has seen nothing yet.
    pub fn new() -> (state: Self)
        ensures
            state.wf(),
            state@ == LoopView::start(),
    {
        let state = GeyserLoop {
            assembler: BlockAssembler::new(),
            store: MessageStore::new(),
            processed: Vec::with_capacity(PROCESSED_MESSAGES_MAX),
        };
        assert(message_views(state.processed@) =~= Seq::<MessageView>::empty());
        state
    }

    /// Takes the waiting messages out, leaving none.
    fn take_processed(&mut self) -> (waiting: Vec<Message>)
        ensures
            message_views(waiting@) == message_views(old(self).processed@),
            final(self).processed@ == Seq::<Message>::empty(),
            final(self).assembler == old(self).assembler,
            final(self).store == old(self).store,
    {
        let mut waiting: Vec<Message> = Vec::with_capacity(PROCESSED_MESSAGES_MAX);
        std::mem::swap(&mut self.processed, &mut waiting);
        waiting
    }

    /// Publishes one message; see [`publish_step`].
    fn publish(&mut self, message: Message, batches: &mut Vec<Batch>)
        requires
            old(self).wf(),
        ensures
            final(self).wf(),
            final(self)@ == publish_step(old(self)@, message@).0,
            batch_views(final(batches)@) == batch_views(old(batches)@) + publish_step(
                old(self)@,
                message@,
            ).1,
    {
        let ghost before = batch_views(batches@);
        let ghost state = self@;
        let ghost view = message@;
        proof {
            lemma_publish_keeps_valid(state, view);
        }
        match &message {
            Message::Slot(slot) => {
                let mut confirmed: Vec<Message> = Vec::new();
                let mut finalized: Vec<Message> = Vec::new();
                match slot.status {
                    CommitmentLevel::Processed => {},
                    CommitmentLevel::Confirmed => {
                        confirmed = self.store.confirmed(slot.slot);
                    },
                    CommitmentLevel::Finalized => {
                        finalized = self.store.finalized(slot.slot);
                    },
                }
                let mut processed = self.take_processed();
                let ghost waiting = message_views(processed@);
                let ghost held_confirmed = message_views(confirmed@);
                let ghost held_finalized = message_views(finalized@);
                processed.push(message.clone());
                confirmed.push(message.clone());
                finalized.push(message);
                proof {
                    assert(message_views(processed@) =~= waiting.push(view));
                    assert(message_views(confirmed@) =~= held_confirmed.push(view));
                    assert(message_views(finalized@) =~= held_finalized.push(view));
                    assert(message_views(self.processed@) =~= Seq::<MessageView>::empty());
                }
                batches.push(Batch { commitment: CommitmentLevel::Processed, messages: processed });
                batches.push(Batch { commitment: CommitmentLevel::Confirmed, messages: confirmed });
                batches.push(Batch { commitment: CommitmentLevel::Finalized, messages: finalized });
                proof {
                    assert(batch_views(batches@) =~= before + slot_batches(state, view));
                }
            },
            _ => {
                let ghost waiting = message_views(self.processed@);
                self.processed.push(message.clone());
                proof {
                    assert(message_views(self.processed@) =~= waiting.push(view));
                }
                if self.processed.len() >= PROCESSED_MESSAGES_MAX {
                    let processed = self.take_processed();
                    batches.push(
                        Batch { commitment: CommitmentLevel::Processed, messages: processed },
                    );
                    proof {
                        assert(message_views(self.processed@) =~= Seq::<MessageView>::empty());
                        assert(batch_views(batches@) =~= before + seq![
                            BatchView {
                                commitment: CommitmentLevel::Processed,
                                messages: waiting.push(view),
                            },
                        ]);
                    }
                } else {
                    proof {
                        assert(batch_views(batches@) =~= before + Seq::<BatchView>::empty());
                    }
                }
                self.store.insert(message);
            },
        }
    }

    /// Takes one message in and says what is to be published; see
    /// [`ingest_step`].
    pub fn on_message(&mut self, message: Message) -> (output: LoopOutput)
        requires
            old(self).wf(),
        ensures
            final(self).wf(),
            final(self)@ == ingest_step(old(self)@, message@).0,
            output@ == ingest_step(old(self)@, message@).1,
    {
        let ghost view = message@;
        let block_meta = match &message {
            Message::Slot(_) => Some(message.clone()),
            Message::BlockMeta(_) => Some(message.clone()),
            _ => None,
        };
        let mut batches: Vec<Batch> = Vec::new();
        assert(batch_views(batches@) =~= Seq::<BatchView>::empty());
        let block = self.assembler.collect(&message);
        proof {
            assert(self@.stored == old(self)@.stored);
            assert(self@.processed == old(self)@.processed);
        }
        match block {
            Some(block) => {
                self.publish(Message::Block(block), &mut batches);
            },
            None => {},
        }
        let ghost first = batch_views(batches@);
        let ghost assembled = self@;
        let invalid_full_block = match &message {
            Message::Slot(slot) => match slot.status {
                CommitmentLevel::Finalized => self.assembler.finalize(slot.slot),
                _ => None,
            },
            _ => None,
        };
        proof {
            assert(self@.stored == assembled.stored);
            assert(self@.processed == assembled.processed);
        }
        self.publish(message, &mut batches);
        proof {
            assert(Seq::<BatchView>::empty() + first =~= first);
        }
        LoopOutput { block_meta, invalid_full_block, batches }
    }

    /// The timer has run out: hands out what is waiting, if anything is; see
    /// [`timer_step`].
    pub fn on_timer(&mut self) -> (batch: Option<Batch>)
        requires
            old(self).wf(),
        ensures
            final(self).wf(),
            final(self)@ == timer_step(old(self)@).0,
            match batch {
                Some(batch) => timer_step(old(self)@).1 == Some(batch@),
                None => timer_step(old(self)@).1 is None,
            },
    {
        if self.processed.len() > 0 {
            let processed = self.take_processed();
            proof {
                assert(message_views(self.processed@) =~= Seq::<MessageView>::empty());
            }
            Some(Batch { commitment: CommitmentLevel::Processed, messages: processed })
        } else {
            proof {
                assert(message_views(self.processed@) =~= Seq::<MessageView>::empty());
            }
            None
        }
    }

    /// The number of messages that wait for the next processed batch.
    pub fn waiting(&self) -> (waiting: usize)
        ensures
            waiting == self@.processed.len(),
    {
        self.processed.len()
    }
}

} // verus!
