//! The messages of one slot, with account updates deduplicated: of all the
//! updates of an account only the one with the greatest write version is
//! held, and among equal write versions the one that came first.

use vstd::prelude::*;
use crate::message::{Message, MessageView, Pubkey, message_views};
use crate::pubkey_index::{IndexEntry, PubkeyIndex};

verus! {

/// `message` is an update of the account `key`.
pub open spec fn is_account_of(message: MessageView, key: Pubkey) -> bool {
    message matches MessageView::Account(update) && update.account.pubkey == key
}

/// The write version of an account update.
pub open spec fn write_version_of(message: MessageView) -> u64 {
    message->Account_0.account.write_version
}

/// No two account updates in the sequence are for the same account.
pub open spec fn distinct_accounts(live: Seq<MessageView>) -> bool {
    forall|i: int, j: int|
        0 <= i < j < live.len() && live[i] is Account && live[j] is Account
            ==> live[i]->Account_0.account.pubkey != live[j]->Account_0.account.pubkey
}

/// The sequence holds an update of the account `key`.
pub open spec fn holds_account(live: Seq<MessageView>, key: Pubkey) -> bool {
    exists|i: int| 0 <= i < live.len() && is_account_of(#[trigger] live[i], key)
}

/// Where the sequence holds an update of the account `key`.
pub open spec fn account_position(live: Seq<MessageView>, key: Pubkey) -> int {
    choose|i: int| 0 <= i < live.len() && is_account_of(#[trigger] live[i], key)
}

/// Entering a message into the deduplicated sequence of its slot.
///
/// An update of an account that the sequence holds no update of, and any
/// message that is no account update, goes to the end. An update with a
/// greater write version than the one held for its account replaces it: the
/// one held leaves its place and the new one goes to the end. Any other
/// update is dropped.
pub open spec fn dedup_insert(live: Seq<MessageView>, message: MessageView) -> Seq<MessageView> {
    match message {
        MessageView::Account(update) => {
            let key = update.account.pubkey;
            if holds_account(live, key) {
                let held = account_position(live, key);
                if write_version_of(live[held]) < update.account.write_version {
                    live.remove(held).push(message)
                } else {
                    live
                }
            } else {
                live.push(message)
            }
        },
        _ => live.push(message),
    }
}

/// The messages that are left when the vacated places are passed over.
pub open spec fn live_of(entries: Seq<Option<Message>>) -> Seq<MessageView>
    decreases entries.len(),
{
    if entries.len() == 0 {
        Seq::empty()
    } else {
        let before = live_of(entries.drop_last());
        match entries.last() {
            Some(message) => before.push(message@),
            None => before,
        }
    }
}

proof fn lemma_live_push(entries: Seq<Option<Message>>, entry: Option<Message>)
    ensures
        live_of(entries.push(entry)) == match entry {
            Some(message) => live_of(entries).push(message@),
            None => live_of(entries),
        },
{
    assert(entries.push(entry).drop_last() =~= entries);
}

/// The place in the live sequence of the entry at `at`, and what vacating
/// that entry does to the live sequence.
proof fn lemma_live_entry(entries: Seq<Option<Message>>, at: int)
    requires
        0 <= at < entries.len(),
        entries[at] is Some,
    ensures
        0 <= live_of(entries.take(at)).len() < live_of(entries).len(),
        live_of(entries)[live_of(entries.take(at)).len() as int] == entries[at]->0@,
        live_of(entries.update(at, None)) == live_of(entries).remove(
            live_of(entries.take(at)).len() as int,
        ),
    decreases entries.len(),
{
    let rest = entries.drop_last();
    let rank = live_of(entries.take(at)).len() as int;
    if at == entries.len() - 1 {
        assert(entries.take(at) =~= rest);
        assert(entries.update(at, None).drop_last() =~= rest);
        assert(live_of(entries).remove(rank) =~= live_of(rest));
    } else {
        lemma_live_entry(rest, at);
        assert(rest.take(at) =~= entries.take(at));
        assert(entries.update(at, None).drop_last() =~= rest.update(at, None));
        assert(entries.update(at, None).last() == entries.last());
        match entries.last() {
            Some(message) => {
                assert(live_of(rest).push(message@).remove(rank) =~= live_of(rest).remove(
                    rank,
                ).push(message@));
            },
            None => {},
        }
    }
}

/// The messages of one slot: an arena in arrival order, in which a replaced
/// account update leaves a vacant place, and an index from account keys to
/// the update that is held.
pub struct SlotMessages {
    entries: Vec<Option<Message>>,
    index: PubkeyIndex,
}

impl View for SlotMessages {
    type V = Seq<MessageView>;

    closed spec fn view(&self) -> Seq<MessageView> {
        live_of(self.entries@)
    }
}

impl SlotMessages {
    /// The index knows exactly the accounts that an update is held of, and
    /// where each stands.
    pub closed spec fn wf(&self) -> bool {
        &&& distinct_accounts(self@)
        &&& forall|key: Pubkey| #[trigger]
            self.index@.contains_key(key) <==> holds_account(self@, key)
        &&& forall|key: Pubkey| #[trigger]
            self.index@.contains_key(key) ==> {
                let entry = self.index@[key];
                &&& entry.position < self.entries@.len()
                &&& self.entries@[entry.position as int] matches Some(message)
                &&& is_account_of(message@, key)
                &&& write_version_of(message@) == entry.write_version
            }
    }

    /// No messages.
    pub fn new() -> (messages: Self)
        ensures
            messages.wf(),
            messages@ == Seq::<MessageView>::empty(),
    {
        SlotMessages { entries: Vec::new(), index: PubkeyIndex::new() }
    }

    /// A well-formed sequence holds at most one update of each account.
    pub proof fn lemma_distinct(&self)
        requires
            self.wf(),
        ensures
            distinct_accounts(self@),
    {
    }

    /// Enters a message; see [`dedup_insert`].
    pub fn insert(&mut self, message: Message)
        requires
            old(self).wf(),
        ensures
            final(self).wf(),
            final(self)@ == dedup_insert(old(self)@, message@),
    {
        let ghost live = self@;
        let ghost entries = self.entries@;
        let ghost index = self.index@;
        let ghost view = message@;
        let slot = match &message {
            Message::Account(update) => Some((update.account.pubkey, update.account.write_version)),
            _ => None,
        };
        match slot {
            None => {
                self.entries.push(Some(message));
                proof {
                    lemma_live_push(entries, Some(message));
                    Self::lemma_append_other(live, view);
                    assert forall|key: Pubkey| #[trigger]
                        self.index@.contains_key(key) implies self.entries@[self.index@[key].position as int]
                        == entries[index[key].position as int] by {}
                }
            },
            Some((key, write_version)) => {
                let position = self.entries.len();
                match self.index.get(&key) {
                    Some(held) => {
                        proof {
                            lemma_live_entry(entries, held.position as int);
                        }
                        let ghost rank = live_of(entries.take(held.position as int)).len() as int;
                        proof {
                            assert(is_account_of(live[rank], key));
                            assert(holds_account(live, key));
                            let chosen = account_position(live, key);
                            assert(chosen == rank) by {
                                if chosen < rank {
                                    assert(live[chosen] is Account && live[rank] is Account);
                                } else if rank < chosen {
                                    assert(live[chosen] is Account && live[rank] is Account);
                                }
                            }
                        }
                        if held.write_version < write_version {
                            self.entries[held.position] = None;
                            self.entries.push(Some(message));
                            self.index.set(key, IndexEntry { write_version, position });
                            proof {
                                let vacated = entries.update(held.position as int, None);
                                assert(self.entries@ =~= vacated.push(Some(message)));
                                lemma_live_push(vacated, Some(message));
                                Self::lemma_replace(live, rank, view, key);
                                assert forall|other: Pubkey| #[trigger]
                                    self.index@.contains_key(other) implies {
                                    let entry = self.index@[other];
                                    &&& entry.position < self.entries@.len()
                                    &&& self.entries@[entry.position as int] matches Some(m)
                                    &&& is_account_of(m@, other)
                                    &&& write_version_of(m@) == entry.write_version
                                } by {
                                    if other != key {
                                        assert(index.contains_key(other));
                                        assert(index[other].position != held.position);
                                    }
                                }
                                assert forall|other: Pubkey| #[trigger]
                                    self.index@.contains_key(other) <==> holds_account(
                                        self@,
                                        other,
                                    ) by {
                                    assert(index.contains_key(other) <==> holds_account(live, other));
                                }
                            }
                        }
                    },
                    None => {
                        self.entries.push(Some(message));
                        self.index.set(key, IndexEntry { write_version, position });
                        proof {
                            lemma_live_push(entries, Some(message));
                            assert(!holds_account(live, key));
                            Self::lemma_append_account(live, view, key);
                            assert forall|other: Pubkey| #[trigger]
                                self.index@.contains_key(other) implies {
                                let entry = self.index@[other];
                                &&& entry.position < self.entries@.len()
                                &&& self.entries@[entry.position as int] matches Some(m)
                                &&& is_account_of(m@, other)
                                &&& write_version_of(m@) == entry.write_version
                            } by {
                                if other != key {
                                    assert(index.contains_key(other));
                                }
                            }
                            assert forall|other: Pubkey| #[trigger]
                                self.index@.contains_key(other) <==> holds_account(self@, other) by {
                                assert(index.contains_key(other) <==> holds_account(live, other));
                            }
                        }
                    },
                }
            },
        }
    }

    /// Appending a message that is no account update changes nothing about
    /// which accounts are held.
    proof fn lemma_append_other(live: Seq<MessageView>, message: MessageView)
        requires
            distinct_accounts(live),
            !(message is Account),
        ensures
            distinct_accounts(live.push(message)),
            forall|key: Pubkey|
                holds_account(live.push(message), key) <==> holds_account(live, key),
    {
        let after = live.push(message);
        assert forall|key: Pubkey| holds_account(after, key) <==> holds_account(live, key) by {
            if holds_account(after, key) {
                let i = choose|i: int| 0 <= i < after.len() && is_account_of(#[trigger] after[i], key);
                assert(is_account_of(live[i], key));
            }
            if holds_account(live, key) {
                let i = choose|i: int| 0 <= i < live.len() && is_account_of(#[trigger] live[i], key);
                assert(is_account_of(after[i], key));
            }
        }
    }

    /// Appending the first update of an account.
    proof fn lemma_append_account(live: Seq<MessageView>, message: MessageView, key: Pubkey)
        requires
            distinct_accounts(live),
            is_account_of(message, key),
            !holds_account(live, key),
        ensures
            distinct_accounts(live.push(message)),
            forall|other: Pubkey|
                holds_account(live.push(message), other) <==> (other == key || holds_account(
                    live,
                    other,
                )),
    {
        let after = live.push(message);
        assert forall|i: int, j: int|
            0 <= i < j < after.len() && after[i] is Account && after[j] is Account
                implies after[i]->Account_0.account.pubkey
            != after[j]->Account_0.account.pubkey by {
            if j == live.len() {
                if after[i]->Account_0.account.pubkey == key {
                    assert(is_account_of(live[i], key));
                }
            }
        }
        assert forall|other: Pubkey|
            holds_account(after, other) <==> (other == key || holds_account(live, other)) by {
            if holds_account(after, other) {
                let i = choose|i: int|
                    0 <= i < after.len() && is_account_of(#[trigger] after[i], other);
                if i < live.len() {
                    assert(is_account_of(live[i], other));
                }
            }
            if other == key {
                assert(is_account_of(after[live.len() as int], key));
            }
            if holds_account(live, other) {
                let i = choose|i: int| 0 <= i < live.len() && is_account_of(#[trigger] live[i], other);
                assert(is_account_of(after[i], other));
            }
        }
    }

    /// Replacing the update that is held of an account.
    proof fn lemma_replace(live: Seq<MessageView>, held: int, message: MessageView, key: Pubkey)
        requires
            distinct_accounts(live),
            0 <= held < live.len(),
            is_account_of(live[held], key),
            is_account_of(message, key),
        ensures
            distinct_accounts(live.remove(held).push(message)),
            forall|other: Pubkey|
                holds_account(live.remove(held).push(message), other) <==> holds_account(
                    live,
                    other,
                ),
    {
        let shorter = live.remove(held);
        let after = shorter.push(message);
        assert forall|i: int, j: int|
            0 <= i < j < after.len() && after[i] is Account && after[j] is Account
                implies after[i]->Account_0.account.pubkey
            != after[j]->Account_0.account.pubkey by {
            let from = |k: int| if k < held { k } else { k + 1 };
            if j < shorter.len() {
                assert(after[i] == live[from(i)] && after[j] == live[from(j)]);
            } else {
                assert(after[i] == live[from(i)]);
                assert(from(i) != held);
                if from(i) < held {
                    assert(live[from(i)] is Account && live[held] is Account);
                } else {
                    assert(live[from(i)] is Account && live[held] is Account);
                }
            }
        }
        assert forall|other: Pubkey| holds_account(after, other) <==> holds_account(live, other) by {
            if holds_account(after, other) {
                let i = choose|i: int|
                    0 <= i < after.len() && is_account_of(#[trigger] after[i], other);
                if i < shorter.len() {
                    let k = if i < held { i } else { i + 1 };
                    assert(is_account_of(live[k], other));
                } else {
                    assert(is_account_of(live[held], other));
                }
            }
            if holds_account(live, other) {
                let i = choose|i: int| 0 <= i < live.len() && is_account_of(#[trigger] live[i], other);
                if i == held {
                    assert(is_account_of(after[shorter.len() as int], other));
                } else {
                    let k = if i < held { i } else { i - 1 };
                    assert(is_account_of(after[k], other));
                }
            }
        }
    }

    /// Copies of the messages that are held, in order.
    pub fn live(&self) -> (messages: Vec<Message>)
        ensures
            message_views(messages@) == self@,
    {
        let mut messages: Vec<Message> = Vec::new();
        let mut i: usize = 0;
        assert(self.entries@.take(0) =~= Seq::<Option<Message>>::empty());
        while i < self.entries.len()
            invariant
                0 <= i <= self.entries.len(),
                message_views(messages@) == live_of(self.entries@.take(i as int)),
            decreases self.entries.len() - i,
        {
            let ghost before = message_views(messages@);
            proof {
                assert(self.entries@.take(i + 1) =~= self.entries@.take(i as int).push(
                    self.entries@[i as int],
                ));
                lemma_live_push(self.entries@.take(i as int), self.entries@[i as int]);
            }
            match &self.entries[i] {
                Some(message) => {
                    messages.push(message.clone());
                    assert(message_views(messages@) =~= before.push(message@));
                },
                None => {},
            }
            i += 1;
        }
        assert(self.entries@.take(i as int) =~= self.entries@);
        messages
    }

    /// The messages that are held, in order.
    pub fn into_live(self) -> (messages: Vec<Message>)
        ensures
            message_views(messages@) == self@,
    {
        let mut messages: Vec<Message> = Vec::new();
        let ghost entries = self.entries@;
        assert(entries.take(0) =~= Seq::<Option<Message>>::empty());
        for entry in it: self.entries
            invariant
                it.seq() == entries,
                message_views(messages@) == live_of(entries.take(it.index() as int)),
        {
            let ghost before = message_views(messages@);
            let ghost done = it.index() as int;
            proof {
                assert(entries.take(done + 1) =~= entries.take(done).push(entries[done]));
                lemma_live_push(entries.take(done), entries[done]);
            }
            match entry {
                Some(message) => {
                    messages.push(message);
                    assert(message_views(messages@) =~= before.push(message@));
                },
                None => {},
            }
        }
        assert(entries.take(entries.len() as int) =~= entries);
        messages
    }
}

} // verus!
