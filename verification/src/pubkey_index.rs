//! Finding the account update that is held for an account key.

use vstd::prelude::*;
use std::collections::HashMap;
use crate::message::Pubkey;

verus! {

/// Where the update that is held for an account stands, and its write
/// version.
#[derive(Debug, Clone, Copy, PartialEq, Eq, Structural)]
pub struct IndexEntry {
    pub write_version: u64,
    pub position: usize,
}

/// A map from account keys to index entries. A key is looked up by its two
/// words in turn.
pub struct PubkeyIndex {
    buckets: HashMap<u128, HashMap<u128, IndexEntry>>,
}

impl View for PubkeyIndex {
    type V = Map<Pubkey, IndexEntry>;

    closed spec fn view(&self) -> Map<Pubkey, IndexEntry> {
        Map::new(
            |key: Pubkey|
                self.buckets@.contains_key(key.head) && self.buckets@[key.head]@.contains_key(
                    key.tail,
                ),
            |key: Pubkey| self.buckets@[key.head]@[key.tail],
        )
    }
}

impl PubkeyIndex {
    /// An index without entries.
    pub fn new() -> (index: Self)
        ensures
            index@ == Map::<Pubkey, IndexEntry>::empty(),
    {
        let index = PubkeyIndex { buckets: HashMap::new() };
        assert(index@ =~= Map::<Pubkey, IndexEntry>::empty());
        index
    }

    /// The entry of `key`, if it has one.
    pub fn get(&self, key: &Pubkey) -> (entry: Option<IndexEntry>)
        ensures
            entry == (if self@.contains_key(*key) {
                Some(self@[*key])
            } else {
                None
            }),
    {
        match self.buckets.get(&key.head) {
            Some(bucket) => match bucket.get(&key.tail) {
                Some(entry) => Some(*entry),
                None => None,
            },
            None => None,
        }
    }

    /// Sets the entry of `key`.
    pub fn set(&mut self, key: Pubkey, entry: IndexEntry)
        ensures
            final(self)@ == old(self)@.insert(key, entry),
    {
        let mut bucket = match self.buckets.remove(&key.head) {
            Some(bucket) => bucket,
            None => HashMap::new(),
        };
        bucket.insert(key.tail, entry);
        self.buckets.insert(key.head, bucket);
        assert(final(self)@ =~= old(self)@.insert(key, entry));
    }
}

} // verus!
