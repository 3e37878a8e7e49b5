//! The messages of the slots that are not finalized yet, kept so that they
//! can be sent again at a higher commitment.

use vstd::prelude::*;
use std::collections::HashMap;
use crate::block_assembly::slots_through;
use crate::message::{Message, MessageView, message_views};
use crate::slot_maps::retain_from;
use crate::slot_messages::{SlotMessages, dedup_insert, distinct_accounts};

verus! {

/// What is held for `slot`; nothing, where the slot has no entry.
pub open spec fn live_at(store: Map<u64, Seq<MessageView>>, slot: u64) -> Seq<MessageView> {
    if store.contains_key(slot) {
        store[slot]
    } else {
        Seq::empty()
    }
}

/// The store after `message` has been entered under its slot.
pub open spec fn store_insert(store: Map<u64, Seq<MessageView>>, message: MessageView) -> Map<
    u64,
    Seq<MessageView>,
> {
    store.insert(message.slot(), dedup_insert(live_at(store, message.slot()), message))
}

/// The store after `slot` has been finalized: the slots up to and including
/// `slot` are gone.
pub open spec fn store_finalize(store: Map<u64, Seq<MessageView>>, slot: u64) -> Map<
    u64,
    Seq<MessageView>,
> {
    store.remove_keys(slots_through(slot))
}

/// The deduplicated messages of each slot.
pub struct MessageStore {
    slots: HashMap<u64, SlotMessages>,
}

impl View for MessageStore {
    type V = Map<u64, Seq<MessageView>>;

    closed spec fn view(&self) -> Map<u64, Seq<MessageView>> {
        Map::new(|slot: u64| self.slots@.contains_key(slot), |slot: u64| self.slots@[slot]@)
    }
}

impl MessageStore {
    /// Every slot is well-formed.
    pub closed spec fn wf(&self) -> bool {
        forall|slot: u64| #[trigger] self.slots@.contains_key(slot) ==> self.slots@[slot].wf()
    }

    /// A store without slots.
    pub fn new() -> (store: Self)
        ensures
            store.wf(),
            store@ == Map::<u64, Seq<MessageView>>::empty(),
    {
        let store = MessageStore { slots: HashMap::new() };
        assert(store@ =~= Map::<u64, Seq<MessageView>>::empty());
        store
    }

    /// In a well-formed store no slot holds two updates of one account.
    pub proof fn lemma_distinct(&self, slot: u64)
        requires
            self.wf(),
        ensures
            distinct_accounts(live_at(self@, slot)),
    {
        if self.slots@.contains_key(slot) {
            self.slots@[slot].lemma_distinct();
        }
    }

    /// Enters a message under its slot, deduplicating account updates.
    pub fn insert(&mut self, message: Message)
        requires
            old(self).wf(),
        ensures
            final(self).wf(),
            final(self)@ == store_insert(old(self)@, message@),
    {
        let slot = message.get_slot();
        let mut messages = match self.slots.remove(&slot) {
            Some(messages) => messages,
            None => SlotMessages::new(),
        };
        messages.insert(message);
        self.slots.insert(slot, messages);
        assert(final(self)@ =~= store_insert(old(self)@, message@));
    }

    /// Copies of the messages that are held for `slot`, in order.
    pub fn confirmed(&self, slot: u64) -> (messages: Vec<Message>)
        ensures
            message_views(messages@) == live_at(self@, slot),
    {
        match self.slots.get(&slot) {
            Some(held) => held.live(),
            None => {
                let messages: Vec<Message> = Vec::new();
                assert(message_views(messages@) =~= Seq::<MessageView>::empty());
                messages
            },
        }
    }

    /// Takes the messages that are held for `slot` out of the store, and
    /// drops the slots before it.
    pub fn finalized(&mut self, slot: u64) -> (messages: Vec<Message>)
        requires
            old(self).wf(),
        ensures
            final(self).wf(),
            message_views(messages@) == live_at(old(self)@, slot),
            final(self)@ == store_finalize(old(self)@, slot),
    {
        retain_from(&mut self.slots, slot);
        let messages = match self.slots.remove(&slot) {
            Some(held) => held.into_live(),
            None => {
                let messages: Vec<Message> = Vec::new();
                assert(message_views(messages@) =~= Seq::<MessageView>::empty());
                messages
            },
        };
        assert(final(self)@ =~= store_finalize(old(self)@, slot));
        messages
    }
}

} // verus!
