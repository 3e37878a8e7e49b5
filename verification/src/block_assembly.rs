//! Rebuilding full blocks: the transactions of a slot are joined with the
//! metadata of its block once all of them have arrived.

use vstd::prelude::*;
use std::collections::BTreeMap;
use crate::message::{
    Message, MessageBlock, MessageBlockMeta, MessageBlockMetaView, MessageBlockView,
    MessageTransactionInfo, MessageTransactionInfoView, MessageView, transaction_views,
};
use crate::slot_maps::first_slot;
use crate::sorting::{sort_by_index, sorted_by_index};

verus! {

/// What has been collected of the block of one slot.
#[derive(Debug)]
pub struct PendingBlock {
    pub meta: Option<MessageBlockMeta>,
    pub transactions: Vec<MessageTransactionInfo>,
}

#[verifier::ext_equal]
pub struct PendingBlockView {
    pub meta: Option<MessageBlockMetaView>,
    pub transactions: Seq<MessageTransactionInfoView>,
}

impl View for PendingBlock {
    type V = PendingBlockView;

    open spec fn view(&self) -> PendingBlockView {
        PendingBlockView {
            meta: match self.meta {
                Some(meta) => Some(meta@),
                None => None,
            },
            transactions: transaction_views(self.transactions@),
        }
    }
}

impl PendingBlockView {
    /// Nothing collected yet.
    pub open spec fn empty() -> PendingBlockView {
        PendingBlockView { meta: None, transactions: Seq::empty() }
    }

    /// The metadata is there and announces exactly as many transactions as
    /// have been collected.
    pub open spec fn is_complete(self) -> bool {
        self.meta matches Some(meta) && meta.executed_transaction_count == self.transactions.len()
    }
}

/// What is pending for `slot`; nothing, where the slot has no entry.
pub open spec fn pending_at(pending: Map<u64, PendingBlockView>, slot: u64) -> PendingBlockView {
    if pending.contains_key(slot) {
        pending[slot]
    } else {
        PendingBlockView::empty()
    }
}

/// The entry of the message's slot once the message is taken in. Only a
/// transaction or the metadata of a block is collected.
pub open spec fn collected(pending: Map<u64, PendingBlockView>, message: MessageView) -> Option<
    PendingBlockView,
> {
    let entry = pending_at(pending, message.slot());
    match message {
        MessageView::Transaction(tx) => Some(
            PendingBlockView {
                meta: entry.meta,
                transactions: entry.transactions.push(tx.transaction),
            },
        ),
        MessageView::BlockMeta(meta) => Some(
            PendingBlockView { meta: Some(meta), transactions: entry.transactions },
        ),
        _ => None,
    }
}

/// Taking a message in: a block comes out exactly when the message is a
/// transaction or the metadata of a block and completes the entry of its
/// slot. The entry then leaves the map, and the block holds the collected
/// transactions in ascending order of index.
pub open spec fn collect_step(pending: Map<u64, PendingBlockView>, message: MessageView) -> (
    Map<u64, PendingBlockView>,
    Option<MessageBlockView>,
) {
    match collected(pending, message) {
        None => (pending, None),
        Some(entry) => if entry.is_complete() {
            (
                pending.remove(message.slot()),
                Some(MessageBlockView::join(entry.meta->0, sorted_by_index(entry.transactions))),
            )
        } else {
            (pending.insert(message.slot(), entry), None)
        },
    }
}

/// The slots up to and including `slot`.
pub open spec fn slots_through(slot: u64) -> Set<u64> {
    Set::new(|other: u64| other <= slot)
}

/// Finalizing `slot`: every entry up to and including `slot` is dropped. An
/// entry of `slot` itself that holds metadata is an invalid full block, and
/// the number of transactions it was left with is reported.
pub open spec fn finalize_step(pending: Map<u64, PendingBlockView>, slot: u64) -> (
    Map<u64, PendingBlockView>,
    Option<nat>,
) {
    (
        pending.remove_keys(slots_through(slot)),
        if pending.contains_key(slot) && pending[slot].meta is Some {
            Some(pending[slot].transactions.len())
        } else {
            None
        },
    )
}

/// The blocks that are being put together, by slot.
pub struct BlockAssembler {
    pending: BTreeMap<u64, PendingBlock>,
}

impl View for BlockAssembler {
    type V = Map<u64, PendingBlockView>;

    closed spec fn view(&self) -> Map<u64, PendingBlockView> {
        Map::new(|slot: u64| self.pending@.contains_key(slot), |slot: u64| self.pending@[slot]@)
    }
}

impl BlockAssembler {
    /// An assembler with nothing pending.
    pub fn new() -> (assembler: Self)
        ensures
            assembler@ == Map::<u64, PendingBlockView>::empty(),
    {
        let assembler = BlockAssembler { pending: BTreeMap::new() };
        assert(assembler@ =~= Map::<u64, PendingBlockView>::empty());
        assembler
    }

    /// The number of slots with a pending block.
    pub fn len(&self) -> (len: usize)
        ensures
            len == self@.len(),
    {
        proof {
            assert(self@.dom() =~= self.pending@.dom());
        }
        self.pending.len()
    }

    /// Takes the entry of `slot` out of the map, or starts an empty one.
    fn take(&mut self, slot: u64) -> (entry: PendingBlock)
        ensures
            entry@ == pending_at(old(self)@, slot),
            final(self)@ == old(self)@.remove(slot),
    {
        let entry = match self.pending.remove(&slot) {
            Some(entry) => entry,
            None => PendingBlock { meta: None, transactions: Vec::new() },
        };
        proof {
            assert(final(self)@ =~= old(self)@.remove(slot));
            assert(entry@.transactions =~= pending_at(old(self)@, slot).transactions);
        }
        entry
    }

    /// Puts an entry back, or turns it into a block if it is complete.
    fn settle(&mut self, slot: u64, entry: PendingBlock) -> (block: Option<MessageBlock>)
        requires
            !old(self)@.contains_key(slot),
        ensures
            entry@.is_complete() ==> final(self)@ == old(self)@ && block is Some && block->0@
                == MessageBlockView::join(entry@.meta->0, sorted_by_index(entry@.transactions)),
            !entry@.is_complete() ==> final(self)@ == old(self)@.insert(slot, entry@)
                && block is None,
    {
        let complete = match &entry.meta {
            Some(meta) => meta.executed_transaction_count == entry.transactions.len() as u64,
            None => false,
        };
        if complete {
            let PendingBlock { meta, transactions } = entry;
            let sorted = sort_by_index(transactions);
            Some(MessageBlock::from(meta.unwrap(), sorted))
        } else {
            let ghost view = entry@;
            self.pending.insert(slot, entry);
            proof {
                assert(final(self)@ =~= old(self)@.insert(slot, view));
            }
            None
        }
    }

    /// Takes a message in. A transaction joins the transactions of its slot,
    /// the metadata of a block becomes the metadata of its slot, and any
    /// other message is passed over. Where the entry of the slot is complete
    /// afterwards, it leaves the assembler as a full block.
    pub fn collect(&mut self, message: &Message) -> (block: Option<MessageBlock>)
        ensures
            final(self)@ == collect_step(old(self)@, message@).0,
            match block {
                Some(b) => collect_step(old(self)@, message@).1 == Some(b@),
                None => collect_step(old(self)@, message@).1 is None,
            },
    {
        match message {
            Message::Transaction(tx) => {
                let mut entry = self.take(tx.slot);
                entry.transactions.push(tx.transaction.clone());
                proof {
                    assert(entry@.transactions =~= pending_at(old(self)@, tx.slot).transactions.push(
                        tx.transaction@,
                    ));
                    assert(old(self)@.remove(tx.slot).insert(tx.slot, entry@) =~= old(self)@.insert(
                        tx.slot,
                        entry@,
                    ));
                }
                self.settle(tx.slot, entry)
            },
            Message::BlockMeta(meta) => {
                let mut entry = self.take(meta.slot);
                entry.meta = Some(meta.clone());
                proof {
                    assert(old(self)@.remove(meta.slot).insert(meta.slot, entry@) =~= old(
                        self,
                    )@.insert(meta.slot, entry@));
                }
                self.settle(meta.slot, entry)
            },
            _ => None,
        }
    }

    /// Drops what is pending for the slots up to and including `slot`, which
    /// has been finalized. Returns the number of transactions that an
    /// invalid full block of `slot` was left with, if there is one.
    pub fn finalize(&mut self, slot: u64) -> (invalid: Option<usize>)
        ensures
            final(self)@ == finalize_step(old(self)@, slot).0,
            match invalid {
                Some(left) => finalize_step(old(self)@, slot).1 == Some(left as nat),
                None => finalize_step(old(self)@, slot).1 is None,
            },
    {
        let mut invalid: Option<usize> = None;
        proof {
            assert(self@.dom() =~= self.pending@.dom());
        }
        loop
            invariant
                forall|other: u64|
                    #![trigger self@.contains_key(other)]
                    self@.contains_key(other) ==> old(self)@.contains_key(other) && self@[other]
                        == old(self)@[other],
                forall|other: u64|
                    #![trigger old(self)@.contains_key(other)]
                    old(self)@.contains_key(other) && other > slot ==> self@.contains_key(other),
                self@.contains_key(slot) ==> invalid is None,
                !self@.contains_key(slot) ==> match invalid {
                    Some(left) => finalize_step(old(self)@, slot).1 == Some(left as nat),
                    None => finalize_step(old(self)@, slot).1 is None,
                },
                self@.dom().finite(),
            ensures
                forall|other: u64| self@.contains_key(other) ==> other > slot,
                !self@.contains_key(slot),
            decreases self@.len(),
        {
            let ghost before = self@;
            proof {
                assert(self@.dom() =~= self.pending@.dom());
            }
            match first_slot(&self.pending) {
                Some(first) => {
                    if first < slot {
                        self.pending.remove(&first);
                        proof {
                            assert(self@ =~= before.remove(first));
                            before.lemma_remove_key_len(first);
                        }
                    } else if first == slot {
                        let entry = self.pending.remove(&first);
                        proof {
                            assert(self@ =~= before.remove(first));
                            before.lemma_remove_key_len(first);
                        }
                        match entry {
                            Some(entry) => {
                                if entry.meta.is_some() {
                                    invalid = Some(entry.transactions.len());
                                }
                            },
                            None => {},
                        }
                    } else {
                        break ;
                    }
                },
                None => {
                    proof {
                        assert(self@ =~= Map::<u64, PendingBlockView>::empty());
                    }
                    break ;
                },
            }
        }
        proof {
            assert(self@ =~= old(self)@.remove_keys(slots_through(slot)));
        }
        invalid
    }
}

} // verus!
