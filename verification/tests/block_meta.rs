use yellowstone_grpc_geyser::block_meta::{
    BlockMetaStorage, BlockhashStatus, GetBlockHeightResponse, GetSlotResponse,
    IsBlockhashValidResponse, QueryError, BLOCKHASH_WINDOW, KEEP_SLOTS, MAX_RECENT_BLOCKHASHES,
};
use yellowstone_grpc_geyser::commitment::CommitmentLevel;
use yellowstone_grpc_geyser::message::{
    Message, MessageBlockMeta, MessageSlot, MessageTransaction, MessageTransactionInfo, Signature,
};

fn meta_with(slot: u64, blockhash: &str, block_height: Option<u64>) -> Message {
    Message::BlockMeta(MessageBlockMeta {
        parent_slot: slot.saturating_sub(1),
        slot,
        parent_blockhash: String::new(),
        blockhash: blockhash.to_string(),
        rewards: vec![],
        block_time: None,
        block_height,
        executed_transaction_count: 0,
    })
}

fn meta(slot: u64) -> Message {
    meta_with(slot, &format!("hash{slot}"), Some(slot + 1000))
}

fn slot(slot: u64, status: CommitmentLevel) -> Message {
    Message::Slot(MessageSlot { slot, parent: None, status })
}

/// A cache that has seen the blocks of the slots 1..=count, each of them
/// processed.
fn warmed(count: u64) -> BlockMetaStorage {
    let mut storage = BlockMetaStorage::new();
    for s in 1..=count {
        assert!(storage.apply(meta(s)));
        assert!(storage.apply(slot(s, CommitmentLevel::Processed)));
    }
    storage
}

#[test]
fn constants_of_the_cache() {
    assert_eq!(KEEP_SLOTS, 3);
    assert_eq!(MAX_RECENT_BLOCKHASHES, 300);
    assert_eq!(BLOCKHASH_WINDOW, 332);
}

#[test]
fn blockhash_status_starts_unreached() {
    let mut status = BlockhashStatus::new(9);
    assert_eq!(
        status,
        BlockhashStatus { slot: 9, processed: false, confirmed: false, finalized: false }
    );
    status.reach(CommitmentLevel::Confirmed);
    assert!(!status.has_reached(CommitmentLevel::Processed));
    assert!(status.has_reached(CommitmentLevel::Confirmed));
    assert!(!status.has_reached(CommitmentLevel::Finalized));
    status.reach(CommitmentLevel::Processed);
    status.reach(CommitmentLevel::Finalized);
    assert_eq!(
        status,
        BlockhashStatus { slot: 9, processed: true, confirmed: true, finalized: true }
    );
}

#[test]
fn commitment_defaults_to_processed() {
    assert_eq!(BlockMetaStorage::parse_commitment(None), Ok(CommitmentLevel::Processed));
    assert_eq!(BlockMetaStorage::parse_commitment(Some(0)), Ok(CommitmentLevel::Processed));
    assert_eq!(BlockMetaStorage::parse_commitment(Some(1)), Ok(CommitmentLevel::Confirmed));
    assert_eq!(BlockMetaStorage::parse_commitment(Some(2)), Ok(CommitmentLevel::Finalized));
    assert_eq!(
        BlockMetaStorage::parse_commitment(Some(3)),
        Err(QueryError::UnknownCommitment(3))
    );
    assert_eq!(
        BlockMetaStorage::parse_commitment(Some(-1)),
        Err(QueryError::UnknownCommitment(-1))
    );
}

#[test]
fn queries_fail_at_startup() {
    let storage = BlockMetaStorage::new();
    assert_eq!(storage.get_slot(None), Err(QueryError::Startup));
    assert_eq!(storage.get_block_height(Some(1)), Err(QueryError::Startup));
    assert_eq!(storage.get_latest_blockhash(Some(2)).err(), Some(QueryError::Startup));
    assert_eq!(storage.is_blockhash_valid("x", None), Err(QueryError::Startup));
    assert_eq!(storage.get_block(None).err(), Some(QueryError::Startup));
    assert_eq!(storage.cursor(CommitmentLevel::Processed), None);
}

#[test]
fn unknown_commitment_comes_first() {
    let storage = warmed(5);
    assert_eq!(storage.get_slot(Some(7)), Err(QueryError::UnknownCommitment(7)));
    assert_eq!(storage.get_block_height(Some(7)), Err(QueryError::UnknownCommitment(7)));
    assert_eq!(
        storage.get_latest_blockhash(Some(7)).err(),
        Some(QueryError::UnknownCommitment(7))
    );
    assert_eq!(storage.is_blockhash_valid("x", Some(7)), Err(QueryError::UnknownCommitment(7)));
    let empty = BlockMetaStorage::new();
    assert_eq!(empty.is_blockhash_valid("x", Some(9)), Err(QueryError::UnknownCommitment(9)));
}

#[test]
fn queries_follow_the_cursor_of_their_commitment() {
    let mut storage = BlockMetaStorage::new();
    for s in 1..=3 {
        storage.apply(meta(s));
    }
    storage.apply(slot(3, CommitmentLevel::Processed));
    storage.apply(slot(2, CommitmentLevel::Confirmed));
    storage.apply(slot(1, CommitmentLevel::Finalized));
    assert_eq!(storage.cursor(CommitmentLevel::Processed), Some(3));
    assert_eq!(storage.cursor(CommitmentLevel::Confirmed), Some(2));
    assert_eq!(storage.cursor(CommitmentLevel::Finalized), Some(1));
    assert_eq!(storage.get_slot(None), Ok(GetSlotResponse { slot: 3 }));
    assert_eq!(storage.get_slot(Some(0)), Ok(GetSlotResponse { slot: 3 }));
    assert_eq!(storage.get_slot(Some(1)), Ok(GetSlotResponse { slot: 2 }));
    assert_eq!(storage.get_slot(Some(2)), Ok(GetSlotResponse { slot: 1 }));
    assert_eq!(
        storage.get_block_height(Some(1)),
        Ok(GetBlockHeightResponse { block_height: 1002 })
    );
    let latest = storage.get_latest_blockhash(Some(2)).unwrap();
    assert_eq!(latest.slot, 1);
    assert_eq!(latest.blockhash, "hash1");
    assert_eq!(latest.last_valid_block_height, 1001);
    assert_eq!(storage.get_block(None).unwrap().blockhash, "hash3");
}

#[test]
fn block_without_height_builds_no_height_response() {
    let mut storage = BlockMetaStorage::new();
    storage.apply(meta_with(4, "h", None));
    storage.apply(slot(4, CommitmentLevel::Processed));
    assert_eq!(storage.get_block_height(None), Err(QueryError::ResponseNotBuilt));
    assert_eq!(storage.get_latest_blockhash(None).err(), Some(QueryError::ResponseNotBuilt));
    assert_eq!(storage.get_slot(None), Ok(GetSlotResponse { slot: 4 }));
}

#[test]
fn cursor_without_block_is_not_available() {
    let mut storage = BlockMetaStorage::new();
    storage.apply(slot(4, CommitmentLevel::Processed));
    assert_eq!(storage.get_slot(None), Err(QueryError::BlockNotAvailable));
    assert_eq!(storage.get_block_height(None), Err(QueryError::BlockNotAvailable));
    assert_eq!(storage.get_latest_blockhash(None).err(), Some(QueryError::BlockNotAvailable));
    assert_eq!(storage.get_slot(Some(1)), Err(QueryError::Startup));
}

#[test]
fn other_messages_are_not_taken() {
    let mut storage = warmed(2);
    let transaction = Message::Transaction(MessageTransaction {
        transaction: MessageTransactionInfo {
            signature: Signature { bytes: [0; 64] },
            is_vote: false,
            transaction: vec![],
            meta: vec![],
            index: 0,
        },
        slot: 9,
    });
    assert!(!storage.apply(transaction));
    assert_eq!(storage.get_slot(None), Ok(GetSlotResponse { slot: 2 }));
}

#[test]
fn finalized_slot_drops_old_blocks() {
    let mut storage = BlockMetaStorage::new();
    for s in 1..=10 {
        storage.apply(meta(s));
    }
    storage.apply(slot(6, CommitmentLevel::Processed));
    storage.apply(slot(7, CommitmentLevel::Confirmed));
    storage.apply(slot(10, CommitmentLevel::Finalized));
    assert_eq!(storage.get_slot(Some(0)), Err(QueryError::BlockNotAvailable));
    assert_eq!(storage.get_slot(Some(1)), Ok(GetSlotResponse { slot: 7 }));
    assert_eq!(storage.get_slot(Some(2)), Ok(GetSlotResponse { slot: 10 }));
}

#[test]
fn finalizing_an_early_slot_drops_nothing() {
    let mut storage = BlockMetaStorage::new();
    storage.apply(meta(0));
    storage.apply(meta(1));
    storage.apply(meta(2));
    storage.apply(slot(0, CommitmentLevel::Processed));
    storage.apply(slot(1, CommitmentLevel::Confirmed));
    storage.apply(slot(2, CommitmentLevel::Finalized));
    assert_eq!(storage.get_slot(Some(0)), Ok(GetSlotResponse { slot: 0 }));
    assert_eq!(storage.get_slot(Some(1)), Ok(GetSlotResponse { slot: 1 }));
    assert_eq!(storage.get_slot(Some(2)), Ok(GetSlotResponse { slot: 2 }));
}

#[test]
fn blockhash_validity_warm_up() {
    let mut storage = warmed(331);
    storage.apply(meta_with(400, "x", Some(1)));
    assert_eq!(storage.is_blockhash_valid("x", Some(0)), Err(QueryError::Startup));
    assert_eq!(storage.is_blockhash_valid("hash1", None), Err(QueryError::Startup));
    storage.apply(slot(400, CommitmentLevel::Processed));
    assert_eq!(
        storage.is_blockhash_valid("x", Some(0)),
        Ok(IsBlockhashValidResponse { valid: true, slot: 400 })
    );
    assert_eq!(
        storage.is_blockhash_valid("x", None),
        Ok(IsBlockhashValidResponse { valid: true, slot: 400 })
    );
    assert_eq!(
        storage.is_blockhash_valid("hash17", None),
        Ok(IsBlockhashValidResponse { valid: true, slot: 400 })
    );
    assert_eq!(
        storage.is_blockhash_valid("unknown", None),
        Ok(IsBlockhashValidResponse { valid: false, slot: 400 })
    );
    assert_eq!(storage.is_blockhash_valid("x", Some(1)), Err(QueryError::Startup));
}

#[test]
fn blockhash_is_valid_at_the_commitments_it_has_reached() {
    let mut storage = warmed(332);
    storage.apply(slot(5, CommitmentLevel::Confirmed));
    assert_eq!(
        storage.is_blockhash_valid("hash5", Some(1)),
        Ok(IsBlockhashValidResponse { valid: true, slot: 5 })
    );
    assert_eq!(
        storage.is_blockhash_valid("hash6", Some(1)),
        Ok(IsBlockhashValidResponse { valid: false, slot: 5 })
    );
    assert_eq!(storage.is_blockhash_valid("hash5", Some(2)), Err(QueryError::Startup));
}

#[test]
fn repeated_blockhash_is_counted_once() {
    let mut storage = BlockMetaStorage::new();
    for s in 1..=400u64 {
        storage.apply(meta_with(s, &format!("hash{}", s % 331), Some(s)));
        storage.apply(slot(s, CommitmentLevel::Processed));
    }
    assert_eq!(storage.is_blockhash_valid("hash5", None), Err(QueryError::Startup));
}

#[test]
fn finalized_slot_drops_old_blockhashes() {
    let mut storage = warmed(400);
    assert_eq!(
        storage.is_blockhash_valid("hash1", None),
        Ok(IsBlockhashValidResponse { valid: true, slot: 400 })
    );
    storage.apply(slot(400, CommitmentLevel::Finalized));
    assert_eq!(
        storage.is_blockhash_valid("hash68", None),
        Ok(IsBlockhashValidResponse { valid: true, slot: 400 })
    );
    assert_eq!(
        storage.is_blockhash_valid("hash67", None),
        Ok(IsBlockhashValidResponse { valid: false, slot: 400 })
    );
    assert_eq!(
        storage.is_blockhash_valid("hash400", Some(2)),
        Ok(IsBlockhashValidResponse { valid: true, slot: 400 })
    );
    storage.apply(slot(402, CommitmentLevel::Finalized));
    assert_eq!(storage.is_blockhash_valid("hash400", None), Err(QueryError::Startup));
}

#[test]
fn blockhash_keeps_the_slot_it_was_first_seen_at() {
    let mut storage = warmed(331);
    storage.apply(meta_with(1000, "hash1", Some(1)));
    storage.apply(slot(1000, CommitmentLevel::Processed));
    storage.apply(meta(1001));
    storage.apply(slot(1001, CommitmentLevel::Processed));
    storage.apply(slot(1001, CommitmentLevel::Finalized));
    assert_eq!(storage.is_blockhash_valid("hash1", None), Err(QueryError::Startup));
}
