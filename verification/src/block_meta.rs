//! The cache of recent block metadata and recent blockhashes that answers
//! the point queries.

use vstd::prelude::*;
use vstd::hash_map::StringHashMap;
use std::collections::HashMap;
use crate::commitment::CommitmentLevel;
use crate::message::{Message, MessageBlockMeta, MessageBlockMetaView, MessageView};
use crate::slot_maps::retain_from;

verus! {

/// On a finalized slot the metadata of blocks more than this many slots
/// before it is dropped.
pub const KEEP_SLOTS: u64 = 3;

/// The number of recent blockhashes that the chain accepts in transactions.
pub const MAX_RECENT_BLOCKHASHES: usize = 300;

/// The cache answers for blockhashes once it knows this many of them, and on
/// a finalized slot it drops those whose slot lies more than this many slots
/// before it.
pub const BLOCKHASH_WINDOW: usize = MAX_RECENT_BLOCKHASHES + 32;

/// The slot of a blockhash and the commitments that the slot has reached.
#[derive(Debug, Clone, Copy, PartialEq, Eq, Structural)]
pub struct BlockhashStatus {
    pub slot: u64,
    pub processed: bool,
    pub confirmed: bool,
    pub finalized: bool,
}

impl BlockhashStatus {
    /// A blockhash of `slot` that has reached no commitment yet.
    pub open spec fn fresh(slot: u64) -> BlockhashStatus {
        BlockhashStatus { slot, processed: false, confirmed: false, finalized: false }
    }

    /// The status with the flag of `level` set.
    pub open spec fn reached(self, level: CommitmentLevel) -> BlockhashStatus {
        match level {
            CommitmentLevel::Processed => BlockhashStatus { processed: true, ..self },
            CommitmentLevel::Confirmed => BlockhashStatus { confirmed: true, ..self },
            CommitmentLevel::Finalized => BlockhashStatus { finalized: true, ..self },
        }
    }

    /// The flag of `level`.
    pub open spec fn flag(self, level: CommitmentLevel) -> bool {
        match level {
            CommitmentLevel::Processed => self.processed,
            CommitmentLevel::Confirmed => self.confirmed,
            CommitmentLevel::Finalized => self.finalized,
        }
    }

    /// A blockhash of `slot` that has reached no commitment yet.
    pub fn new(slot: u64) -> (status: Self)
        ensures
            status == Self::fresh(slot),
    {
        BlockhashStatus { slot, processed: false, confirmed: false, finalized: false }
    }

    /// Sets the flag of `level`.
    pub fn reach(&mut self, level: CommitmentLevel)
        ensures
            *final(self) == old(self).reached(level),
    {
        match level {
            CommitmentLevel::Processed => {
                self.processed = true;
            },
            CommitmentLevel::Confirmed => {
                self.confirmed = true;
            },
            CommitmentLevel::Finalized => {
                self.finalized = true;
            },
        }
    }

    /// Reads the flag of `level`.
    pub fn has_reached(&self, level: CommitmentLevel) -> (reached: bool)
        ensures
            reached == self.flag(level),
    {
        match level {
            CommitmentLevel::Processed => self.processed,
            CommitmentLevel::Confirmed => self.confirmed,
            CommitmentLevel::Finalized => self.finalized,
        }
    }
}

/// What the cache holds.
#[verifier::ext_equal]
pub struct BlockMetaView {
    /// The metadata of recent blocks, by slot.
    pub blocks: Map<u64, MessageBlockMetaView>,
    /// The recent blockhashes.
    pub blockhashes: Map<Seq<char>, BlockhashStatus>,
    /// The slot that was last reported as processed.
    pub processed: Option<u64>,
    /// The slot that was last reported as confirmed.
    pub confirmed: Option<u64>,
    /// The slot that was last reported as finalized.
    pub finalized: Option<u64>,
}

impl BlockMetaView {
    /// A cache that has seen nothing.
    pub open spec fn empty() -> BlockMetaView {
        BlockMetaView {
            blocks: Map::empty(),
            blockhashes: Map::empty(),
            processed: None,
            confirmed: None,
            finalized: None,
        }
    }

    /// The slot that was last reported at `level`.
    pub open spec fn cursor(self, level: CommitmentLevel) -> Option<u64> {
        match level {
            CommitmentLevel::Processed => self.processed,
            CommitmentLevel::Confirmed => self.confirmed,
            CommitmentLevel::Finalized => self.finalized,
        }
    }

    /// The cache with the cursor of `level` at `slot`.
    pub open spec fn with_cursor(self, level: CommitmentLevel, slot: u64) -> BlockMetaView {
        match level {
            CommitmentLevel::Processed => BlockMetaView { processed: Some(slot), ..self },
            CommitmentLevel::Confirmed => BlockMetaView { confirmed: Some(slot), ..self },
            CommitmentLevel::Finalized => BlockMetaView { finalized: Some(slot), ..self },
        }
    }

    /// The cache after the blockhash of `slot`, if the block of the slot is
    /// known, has been marked as having reached `level`. A blockhash that is
    /// seen for the first time is entered under `slot`.
    pub open spec fn with_blockhash(self, level: CommitmentLevel, slot: u64) -> BlockMetaView {
        if self.blocks.contains_key(slot) {
            let blockhash = self.blocks[slot].blockhash;
            let status = if self.blockhashes.contains_key(blockhash) {
                self.blockhashes[blockhash]
            } else {
                BlockhashStatus::fresh(slot)
            };
            BlockMetaView {
                blockhashes: self.blockhashes.insert(blockhash, status.reached(level)),
                ..self
            }
        } else {
            self
        }
    }

    /// The cache after `slot` has been finalized: blocks more than
    /// `KEEP_SLOTS` slots before it, and blockhashes of slots more than
    /// `BLOCKHASH_WINDOW` slots before it, are gone.
    pub open spec fn trimmed(self, slot: u64) -> BlockMetaView {
        BlockMetaView {
            blocks: self.blocks.restrict(Set::new(|other: u64| other >= slot - KEEP_SLOTS)),
            blockhashes: self.blockhashes.restrict(
                Set::new(
                    |blockhash: Seq<char>|
                        self.blockhashes[blockhash].slot >= slot - BLOCKHASH_WINDOW,
                ),
            ),
            ..self
        }
    }

    /// The cache after a message has been applied. Only a slot status and
    /// the metadata of a block change anything.
    pub open spec fn applied(self, message: MessageView) -> BlockMetaView {
        match message {
            MessageView::Slot(slot) => {
                let marked = self.with_cursor(slot.status, slot.slot).with_blockhash(
                    slot.status,
                    slot.slot,
                );
                if slot.status == CommitmentLevel::Finalized {
                    marked.trimmed(slot.slot)
                } else {
                    marked
                }
            },
            MessageView::BlockMeta(meta) => BlockMetaView {
                blocks: self.blocks.insert(meta.slot, meta),
                ..self
            },
            _ => self,
        }
    }
}

/// Why a point query has no answer.
#[derive(Debug, Clone, Copy, PartialEq, Eq, Structural)]
pub enum QueryError {
    /// The commitment of the query is no commitment level; the number that
    /// was given instead comes with the error.
    UnknownCommitment(i32),
    /// The cache has not seen enough yet.
    Startup,
    /// The block that the query asks for is not in the cache.
    BlockNotAvailable,
    /// The block lacks what the answer needs.
    ResponseNotBuilt,
}

/// The latest blockhash at some commitment.
#[derive(Debug)]
pub struct GetLatestBlockhashResponse {
    pub slot: u64,
    pub blockhash: String,
    pub last_valid_block_height: u64,
}

pub struct GetLatestBlockhashResponseView {
    pub slot: u64,
    pub blockhash: Seq<char>,
    pub last_valid_block_height: u64,
}

impl View for GetLatestBlockhashResponse {
    type V = GetLatestBlockhashResponseView;

    open spec fn view(&self) -> GetLatestBlockhashResponseView {
        GetLatestBlockhashResponseView {
            slot: self.slot,
            blockhash: self.blockhash@,
            last_valid_block_height: self.last_valid_block_height,
        }
    }
}

/// The height of the latest block at some commitment.
#[derive(Debug, Clone, Copy, PartialEq, Eq, Structural)]
pub struct GetBlockHeightResponse {
    pub block_height: u64,
}

/// The latest slot at some commitment.
#[derive(Debug, Clone, Copy, PartialEq, Eq, Structural)]
pub struct GetSlotResponse {
    pub slot: u64,
}

/// Whether a blockhash is valid at some commitment, and the latest slot at
/// that commitment.
#[derive(Debug, Clone, Copy, PartialEq, Eq, Structural)]
pub struct IsBlockhashValidResponse {
    pub valid: bool,
    pub slot: u64,
}

/// The commitment level that a query names. A query that names none asks at
/// processed commitment.
pub open spec fn parsed_commitment(commitment: Option<i32>) -> Result<CommitmentLevel, QueryError> {
    match commitment {
        None => Ok(CommitmentLevel::Processed),
        Some(code) => match CommitmentLevel::of_code(code as int) {
            Some(level) => Ok(level),
            None => Err(QueryError::UnknownCommitment(code)),
        },
    }
}

impl BlockMetaView {
    /// The metadata of the latest block at the commitment of the query.
    pub open spec fn current_block(self, commitment: Option<i32>) -> Result<
        MessageBlockMetaView,
        QueryError,
    > {
        match parsed_commitment(commitment) {
            Err(error) => Err(error),
            Ok(level) => match self.cursor(level) {
                None => Err(QueryError::Startup),
                Some(slot) => if self.blocks.contains_key(slot) {
                    Ok(self.blocks[slot])
                } else {
                    Err(QueryError::BlockNotAvailable)
                },
            },
        }
    }

    /// The latest blockhash; the block must have a height.
    pub open spec fn latest_blockhash(self, commitment: Option<i32>) -> Result<
        GetLatestBlockhashResponseView,
        QueryError,
    > {
        match self.current_block(commitment) {
            Err(error) => Err(error),
            Ok(block) => match block.block_height {
                Some(height) => Ok(
                    GetLatestBlockhashResponseView {
                        slot: block.slot,
                        blockhash: block.blockhash,
                        last_valid_block_height: height,
                    },
                ),
                None => Err(QueryError::ResponseNotBuilt),
            },
        }
    }

    /// The height of the latest block; the block must have one.
    pub open spec fn block_height(self, commitment: Option<i32>) -> Result<
        GetBlockHeightResponse,
        QueryError,
    > {
        match self.current_block(commitment) {
            Err(error) => Err(error),
            Ok(block) => match block.block_height {
                Some(block_height) => Ok(GetBlockHeightResponse { block_height }),
                None => Err(QueryError::ResponseNotBuilt),
            },
        }
    }

    /// The slot of the latest block.
    pub open spec fn latest_slot(self, commitment: Option<i32>) -> Result<
        GetSlotResponse,
        QueryError,
    > {
        match self.current_block(commitment) {
            Err(error) => Err(error),
            Ok(block) => Ok(GetSlotResponse { slot: block.slot }),
        }
    }

    /// Whether `blockhash` is valid at the commitment of the query. There is
    /// no answer before `BLOCKHASH_WINDOW` blockhashes are known; after
    /// that, a blockhash is valid if it is known and its slot has reached
    /// the commitment.
    pub open spec fn blockhash_valid(self, blockhash: Seq<char>, commitment: Option<i32>) -> Result<
        IsBlockhashValidResponse,
        QueryError,
    > {
        match parsed_commitment(commitment) {
            Err(error) => Err(error),
            Ok(level) => if self.blockhashes.len() < BLOCKHASH_WINDOW {
                Err(QueryError::Startup)
            } else {
                match self.cursor(level) {
                    None => Err(QueryError::Startup),
                    Some(slot) => Ok(
                        IsBlockhashValidResponse {
                            valid: self.blockhashes.contains_key(blockhash)
                                && self.blockhashes[blockhash].flag(level),
                            slot,
                        },
                    ),
                }
            },
        }
    }
}

/// The keys of a list of blockhashes, one for one.
pub open spec fn blockhash_keys(order: Seq<String>) -> Seq<Seq<char>> {
    Seq::new(order.len(), |i: int| order[i]@)
}

/// The cache of recent block metadata and recent blockhashes.
pub struct BlockMetaStorage {
    blocks: HashMap<u64, MessageBlockMeta>,
    blockhashes: StringHashMap<BlockhashStatus>,
    /// The known blockhashes in the order in which they were first seen.
    order: Vec<String>,
    processed: Option<u64>,
    confirmed: Option<u64>,
    finalized: Option<u64>,
}

impl View for BlockMetaStorage {
    type V = BlockMetaView;

    closed spec fn view(&self) -> BlockMetaView {
        BlockMetaView {
            blocks: Map::new(
                |slot: u64| self.blocks@.contains_key(slot),
                |slot: u64| self.blocks@[slot]@,
            ),
            blockhashes: self.blockhashes@,
            processed: self.processed,
            confirmed: self.confirmed,
            finalized: self.finalized,
        }
    }
}

impl BlockMetaStorage {
    /// The list of blockhashes names every known blockhash once, and every
    /// block stands under its own slot.
    pub closed spec fn wf(&self) -> bool {
        &&& blockhash_keys(self.order@).no_duplicates()
        &&& forall|blockhash: Seq<char>|
            self.blockhashes@.contains_key(blockhash) <==> blockhash_keys(self.order@).contains(
                blockhash,
            )
        &&& forall|slot: u64| #[trigger]
            self.blocks@.contains_key(slot) ==> self.blocks@[slot].slot == slot
    }

    /// A cache that has seen nothing.
    pub fn new() -> (storage: Self)
        ensures
            storage.wf(),
            storage@ == BlockMetaView::empty(),
    {
        let storage = BlockMetaStorage {
            blocks: HashMap::new(),
            blockhashes: StringHashMap::new(),
            order: Vec::new(),
            processed: None,
            confirmed: None,
            finalized: None,
        };
        assert(storage@.blocks =~= Map::<u64, MessageBlockMetaView>::empty());
        storage
    }

    /// In a well-formed cache every block stands under its own slot, and the
    /// blockhashes are finitely many.
    pub proof fn lemma_wf(&self)
        requires
            self.wf(),
        ensures
            forall|slot: u64| #[trigger]
                self@.blocks.contains_key(slot) ==> self@.blocks[slot].slot == slot,
            self@.blockhashes.dom().finite(),
    {
        let keys = blockhash_keys(self.order@);
        assert(self@.blockhashes.dom() =~= keys.to_set());
        vstd::seq_lib::seq_to_set_is_finite(keys);
        keys.unique_seq_to_set();
    }

    /// Marks the blockhash of `slot`, if the block of the slot is known, as
    /// having reached `level`.
    fn mark_blockhash(&mut self, level: CommitmentLevel, slot: u64)
        requires
            old(self).wf(),
        ensures
            final(self).wf(),
            final(self)@ == old(self)@.with_blockhash(level, slot),
    {
        let blockhash = match self.blocks.get(&slot) {
            Some(block) => block.blockhash.clone(),
            None => {
                return ;
            },
        };
        let ghost key = blockhash@;
        let ghost keys = blockhash_keys(self.order@);
        let mut status = match self.blockhashes.get(blockhash.as_str()) {
            Some(status) => *status,
            None => {
                self.order.push(blockhash.clone());
                proof {
                    assert(blockhash_keys(self.order@) =~= keys.push(key));
                    assert(!keys.contains(key));
                }
                BlockhashStatus::new(slot)
            },
        };
        status.reach(level);
        self.blockhashes.insert(blockhash, status);
        proof {
            let after = blockhash_keys(self.order@);
            assert forall|other: Seq<char>|
                self.blockhashes@.contains_key(other) <==> after.contains(other) by {
                if keys.contains(other) {
                    let at = choose|at: int| 0 <= at < keys.len() && keys[at] == other;
                    assert(after[at] == other);
                }
                if after.contains(other) && other != key {
                    let at = choose|at: int| 0 <= at < after.len() && after[at] == other;
                    assert(keys[at] == other);
                }
                if other == key {
                    if keys.contains(key) {
                    } else {
                        assert(after[keys.len() as int] == key);
                    }
                }
            }
            assert(final(self)@.blocks =~= old(self)@.blocks);
        }
    }

    /// Drops the blockhashes whose slot lies more than `BLOCKHASH_WINDOW`
    /// slots before `slot`.
    fn trim_blockhashes(&mut self, slot: u64)
        requires
            old(self).wf(),
        ensures
            final(self).wf(),
            final(self)@.blockhashes == old(self)@.trimmed(slot).blockhashes,
            final(self)@.blocks == old(self)@.blocks,
            final(self)@.processed == old(self)@.processed,
            final(self)@.confirmed == old(self)@.confirmed,
            final(self)@.finalized == old(self)@.finalized,
    {
        let bound: u64 = if slot >= BLOCKHASH_WINDOW as u64 {
            slot - BLOCKHASH_WINDOW as u64
        } else {
            0
        };
        let mut order: Vec<String> = Vec::new();
        std::mem::swap(&mut self.order, &mut order);
        let ghost all = blockhash_keys(order@);
        let ghost known = self.blockhashes@;
        let ghost blocks = self@.blocks;
        let mut kept: Vec<String> = Vec::new();
        assert(blockhash_keys(kept@) =~= Seq::<Seq<char>>::empty());
        for blockhash in it: order
            invariant
                it.seq() == order@,
                all == blockhash_keys(order@),
                all.no_duplicates(),
                forall|other: Seq<char>| known.contains_key(other) <==> all.contains(other),
                bound == (if slot >= BLOCKHASH_WINDOW {
                    slot - BLOCKHASH_WINDOW
                } else {
                    0
                }),
                self.blocks == old(self).blocks,
                self.processed == old(self).processed,
                self.confirmed == old(self).confirmed,
                self.finalized == old(self).finalized,
                blockhash_keys(kept@).no_duplicates(),
                forall|other: Seq<char>|
                    blockhash_keys(kept@).contains(other) <==> (exists|at: int|
                        0 <= at < it.index() && all[at] == other && known[other].slot >= bound),
                forall|other: Seq<char>|
                    #![trigger self.blockhashes@.contains_key(other)]
                    self.blockhashes@.contains_key(other) <==> known.contains_key(other) && !(
                    exists|at: int|
                        0 <= at < it.index() && all[at] == other && known[other].slot < bound),
                forall|other: Seq<char>|
                    self.blockhashes@.contains_key(other) ==> self.blockhashes@[other]
                        == known[other],
        {
            let ghost done = it.index() as int;
            let ghost key = blockhash@;
            let ghost before = blockhash_keys(kept@);
            let ghost map_before = self.blockhashes@;
            proof {
                assert(all[done] == key);
                assert(all.contains(key));
                assert(map_before.contains_key(key)) by {
                    if exists|at: int| 0 <= at < done && all[at] == key && known[key].slot < bound {
                        let at = choose|at: int|
                            0 <= at < done && all[at] == key && known[key].slot < bound;
                        assert(all[at] == all[done]);
                    }
                }
            }
            let keep = match self.blockhashes.get(blockhash.as_str()) {
                Some(status) => status.slot >= bound,
                None => true,
            };
            if keep {
                kept.push(blockhash);
                proof {
                    let after = blockhash_keys(kept@);
                    assert(after =~= before.push(key));
                    assert(!before.contains(key)) by {
                        if before.contains(key) {
                            let at = choose|at: int|
                                0 <= at < done && all[at] == key && known[key].slot >= bound;
                            assert(all[at] == all[done]);
                        }
                    }
                    assert forall|other: Seq<char>|
                        after.contains(other) <==> (exists|at: int|
                            0 <= at < done + 1 && all[at] == other && known[other].slot
                                >= bound) by {
                        if after.contains(other) {
                            let k = choose|k: int| 0 <= k < after.len() && after[k] == other;
                            if k < before.len() {
                                assert(before[k] == other);
                                assert(before.contains(other));
                                let at = choose|at: int|
                                    0 <= at < done && all[at] == other && known[other].slot
                                        >= bound;
                                assert(0 <= at < done + 1 && all[at] == other);
                            } else {
                                assert(0 <= done < done + 1 && all[done] == other);
                            }
                        }
                        if exists|at: int|
                            0 <= at < done + 1 && all[at] == other && known[other].slot >= bound {
                            let at = choose|at: int|
                                0 <= at < done + 1 && all[at] == other && known[other].slot
                                    >= bound;
                            if at < done {
                                assert(before.contains(other));
                                let k = choose|k: int| 0 <= k < before.len() && before[k] == other;
                                assert(after[k] == other);
                            } else {
                                assert(after[before.len() as int] == other);
                            }
                        }
                    }
                    assert forall|other: Seq<char>|
                        #![trigger self.blockhashes@.contains_key(other)]
                        self.blockhashes@.contains_key(other) <==> known.contains_key(other) && !(
                        exists|at: int|
                            0 <= at < done + 1 && all[at] == other && known[other].slot
                                < bound) by {
                        if exists|at: int|
                            0 <= at < done + 1 && all[at] == other && known[other].slot < bound {
                            let at = choose|at: int|
                                0 <= at < done + 1 && all[at] == other && known[other].slot
                                    < bound;
                            assert(at < done);
                        }
                    }
                }
            } else {
                self.blockhashes.remove(blockhash.as_str());
                proof {
                    assert forall|other: Seq<char>|
                        blockhash_keys(kept@).contains(other) <==> (exists|at: int|
                            0 <= at < done + 1 && all[at] == other && known[other].slot
                                >= bound) by {
                        if exists|at: int|
                            0 <= at < done + 1 && all[at] == other && known[other].slot >= bound {
                            let at = choose|at: int|
                                0 <= at < done + 1 && all[at] == other && known[other].slot
                                    >= bound;
                            assert(at < done);
                        }
                    }
                    assert forall|other: Seq<char>|
                        #![trigger self.blockhashes@.contains_key(other)]
                        self.blockhashes@.contains_key(other) <==> known.contains_key(other) && !(
                        exists|at: int|
                            0 <= at < done + 1 && all[at] == other && known[other].slot
                                < bound) by {
                        if other == key {
                            assert(0 <= done < done + 1 && all[done] == other);
                        } else {
                            if exists|at: int|
                                0 <= at < done + 1 && all[at] == other && known[other].slot
                                    < bound {
                                let at = choose|at: int|
                                    0 <= at < done + 1 && all[at] == other && known[other].slot
                                        < bound;
                                assert(at < done);
                            }
                        }
                    }
                }
            }
        }
        self.order = kept;
        proof {
            let wanted = old(self)@.trimmed(slot).blockhashes;
            assert forall|other: Seq<char>|
                self.blockhashes@.contains_key(other) <==> wanted.contains_key(other) by {
                if known.contains_key(other) {
                    let at = choose|at: int| 0 <= at < all.len() && all[at] == other;
                    assert(all[at] == other);
                }
            }
            assert(self.blockhashes@ =~= wanted);
            assert forall|other: Seq<char>|
                self.blockhashes@.contains_key(other) <==> blockhash_keys(self.order@).contains(
                    other,
                ) by {
                if known.contains_key(other) {
                    let at = choose|at: int| 0 <= at < all.len() && all[at] == other;
                    assert(all[at] == other);
                }
            }
            assert(final(self)@.blocks =~= old(self)@.blocks);
        }
    }

    /// Applies a message to the cache; see [`BlockMetaView::applied`].
    /// Returns whether the message was one that the cache takes: a slot
    /// status or the metadata of a block.
    pub fn apply(&mut self, message: Message) -> (taken: bool)
        requires
            old(self).wf(),
        ensures
            final(self).wf(),
            final(self)@ == old(self)@.applied(message@),
            taken == (message@ is Slot || message@ is BlockMeta),
    {
        match message {
            Message::Slot(slot) => {
                match slot.status {
                    CommitmentLevel::Processed => {
                        self.processed = Some(slot.slot);
                    },
                    CommitmentLevel::Confirmed => {
                        self.confirmed = Some(slot.slot);
                    },
                    CommitmentLevel::Finalized => {
                        self.finalized = Some(slot.slot);
                    },
                }
                proof {
                    assert(self@.blocks =~= old(self)@.blocks);
                    assert(self@ == old(self)@.with_cursor(slot.status, slot.slot));
                }
                self.mark_blockhash(slot.status, slot.slot);
                if slot.status == CommitmentLevel::Finalized {
                    let ghost marked = self@;
                    let keep: u64 = if slot.slot >= KEEP_SLOTS {
                        slot.slot - KEEP_SLOTS
                    } else {
                        0
                    };
                    retain_from(&mut self.blocks, keep);
                    proof {
                        assert(self@.blocks =~= marked.trimmed(slot.slot).blocks);
                    }
                    self.trim_blockhashes(slot.slot);
                    proof {
                        assert(marked.trimmed(slot.slot).blockhashes =~= self@.blockhashes) by {
                            assert(self@.blockhashes =~= marked.blockhashes.restrict(
                                Set::new(
                                    |blockhash: Seq<char>|
                                        marked.blockhashes[blockhash].slot >= slot.slot
                                            - BLOCKHASH_WINDOW,
                                ),
                            ));
                        }
                    }
                }
                true
            },
            Message::BlockMeta(meta) => {
                let ghost view = meta@;
                self.blocks.insert(meta.slot, meta);
                proof {
                    assert(self@.blocks =~= old(self)@.blocks.insert(view.slot, view));
                }
                true
            },
            _ => false,
        }
    }
    /// Reads the commitment of a query; see [`parsed_commitment`].
    pub fn parse_commitment(commitment: Option<i32>) -> (level: Result<CommitmentLevel, QueryError>)
        ensures
            level == parsed_commitment(commitment),
    {
        match commitment {
            None => Ok(CommitmentLevel::Processed),
            Some(code) => match CommitmentLevel::from_i32(code) {
                Some(level) => Ok(level),
                None => Err(QueryError::UnknownCommitment(code)),
            },
        }
    }

    /// The slot that was last reported at `level`.
    pub fn cursor(&self, level: CommitmentLevel) -> (slot: Option<u64>)
        ensures
            slot == self@.cursor(level),
    {
        match level {
            CommitmentLevel::Processed => self.processed,
            CommitmentLevel::Confirmed => self.confirmed,
            CommitmentLevel::Finalized => self.finalized,
        }
    }

    /// The metadata of the latest block at the commitment of the query; see
    /// [`BlockMetaView::current_block`].
    pub fn get_block(&self, commitment: Option<i32>) -> (block: Result<
        &MessageBlockMeta,
        QueryError,
    >)
        ensures
            match block {
                Ok(block) => self@.current_block(commitment) == Ok::<
                    MessageBlockMetaView,
                    QueryError,
                >(block@),
                Err(error) => self@.current_block(commitment) == Err::<
                    MessageBlockMetaView,
                    QueryError,
                >(error),
            },
    {
        let level = match Self::parse_commitment(commitment) {
            Ok(level) => level,
            Err(error) => {
                return Err(error);
            },
        };
        let slot = match self.cursor(level) {
            Some(slot) => slot,
            None => {
                return Err(QueryError::Startup);
            },
        };
        match self.blocks.get(&slot) {
            Some(block) => Ok(block),
            None => Err(QueryError::BlockNotAvailable),
        }
    }

    /// The latest blockhash; see [`BlockMetaView::latest_blockhash`].
    pub fn get_latest_blockhash(&self, commitment: Option<i32>) -> (response: Result<
        GetLatestBlockhashResponse,
        QueryError,
    >)
        ensures
            match response {
                Ok(response) => self@.latest_blockhash(commitment) == Ok::<
                    GetLatestBlockhashResponseView,
                    QueryError,
                >(response@),
                Err(error) => self@.latest_blockhash(commitment) == Err::<
                    GetLatestBlockhashResponseView,
                    QueryError,
                >(error),
            },
    {
        match self.get_block(commitment) {
            Ok(block) => match block.block_height {
                Some(last_valid_block_height) => Ok(
                    GetLatestBlockhashResponse {
                        slot: block.slot,
                        blockhash: block.blockhash.clone(),
                        last_valid_block_height,
                    },
                ),
                None => Err(QueryError::ResponseNotBuilt),
            },
            Err(error) => Err(error),
        }
    }

    /// The height of the latest block; see [`BlockMetaView::block_height`].
    pub fn get_block_height(&self, commitment: Option<i32>) -> (response: Result<
        GetBlockHeightResponse,
        QueryError,
    >)
        ensures
            response == self@.block_height(commitment),
    {
        match self.get_block(commitment) {
            Ok(block) => match block.block_height {
                Some(block_height) => Ok(GetBlockHeightResponse { block_height }),
                None => Err(QueryError::ResponseNotBuilt),
            },
            Err(error) => Err(error),
        }
    }

    /// The slot of the latest block; see [`BlockMetaView::latest_slot`]. In
    /// a well-formed cache it is the slot that was last reported at the
    /// commitment of the query.
    pub fn get_slot(&self, commitment: Option<i32>) -> (response: Result<
        GetSlotResponse,
        QueryError,
    >)
        ensures
            response == self@.latest_slot(commitment),
    {
        match self.get_block(commitment) {
            Ok(block) => Ok(GetSlotResponse { slot: block.slot }),
            Err(error) => Err(error),
        }
    }

    /// Whether `blockhash` is valid; see [`BlockMetaView::blockhash_valid`].
    pub fn is_blockhash_valid(&self, blockhash: &str, commitment: Option<i32>) -> (response: Result<
        IsBlockhashValidResponse,
        QueryError,
    >)
        ensures
            response == self@.blockhash_valid(blockhash@, commitment),
    {
        let level = match Self::parse_commitment(commitment) {
            Ok(level) => level,
            Err(error) => {
                return Err(error);
            },
        };
        if self.blockhashes.len() < BLOCKHASH_WINDOW {
            return Err(QueryError::Startup);
        }
        let slot = match self.cursor(level) {
            Some(slot) => slot,
            None => {
                return Err(QueryError::Startup);
            },
        };
        let valid = match self.blockhashes.get(blockhash) {
            Some(status) => status.has_reached(level),
            None => false,
        };
        Ok(IsBlockhashValidResponse { valid, slot })
    }
}

/// A query that names no commitment is answered as one that names processed
/// commitment.
pub proof fn lemma_default_commitment(state: BlockMetaView, blockhash: Seq<char>)
    ensures
        parsed_commitment(None) == Ok::<CommitmentLevel, QueryError>(CommitmentLevel::Processed),
        parsed_commitment(None) == parsed_commitment(Some(0)),
        state.current_block(None) == state.current_block(Some(0)),
        state.latest_blockhash(None) == state.latest_blockhash(Some(0)),
        state.block_height(None) == state.block_height(Some(0)),
        state.latest_slot(None) == state.latest_slot(Some(0)),
        state.blockhash_valid(blockhash, None) == state.blockhash_valid(blockhash, Some(0)),
{
}

/// Where every block stands under its own slot, as in a well-formed cache,
/// the latest slot at a commitment is the slot that was last reported at
/// that commitment.
pub proof fn lemma_latest_slot_is_cursor(state: BlockMetaView, commitment: Option<i32>)
    requires
        forall|slot: u64| #[trigger]
            state.blocks.contains_key(slot) ==> state.blocks[slot].slot == slot,
    ensures
        state.latest_slot(commitment) matches Ok(response) ==> parsed_commitment(commitment)
            matches Ok(level) && state.cursor(level) == Some(response.slot),
{
}

/// While fewer than `BLOCKHASH_WINDOW` blockhashes are known, the question
/// whether a blockhash is valid has no answer, at any commitment: the cache
/// is starting up.
pub proof fn lemma_blockhash_warm_up(
    state: BlockMetaView,
    blockhash: Seq<char>,
    commitment: Option<i32>,
)
    requires
        state.blockhashes.len() < BLOCKHASH_WINDOW,
        parsed_commitment(commitment) is Ok,
    ensures
        state.blockhash_valid(blockhash, commitment) == Err::<
            IsBlockhashValidResponse,
            QueryError,
        >(QueryError::Startup),
{
}

} // verus!
