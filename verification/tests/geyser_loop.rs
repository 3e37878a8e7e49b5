use yellowstone_grpc_geyser::commitment::CommitmentLevel;
use yellowstone_grpc_geyser::geyser_loop::{
    Batch, GeyserLoop, PROCESSED_MESSAGES_MAX, PROCESSED_MESSAGES_SLEEP_MS,
};
use yellowstone_grpc_geyser::message::{
    Message, MessageAccount, MessageAccountInfo, MessageBlockMeta, MessageSlot,
    MessageTransaction, MessageTransactionInfo, Pubkey, Signature,
};

fn key(byte: u8) -> Pubkey {
    Pubkey::from_slice(&[byte; 32]).unwrap()
}

fn account(slot: u64, pubkey: u8, write_version: u64, data: Vec<u8>) -> Message {
    Message::Account(MessageAccount {
        account: MessageAccountInfo {
            pubkey: key(pubkey),
            lamports: 1,
            owner: key(200),
            executable: false,
            rent_epoch: 0,
            data,
            write_version,
            txn_signature: None,
        },
        slot,
        is_startup: false,
    })
}

fn tx(slot: u64, index: u64) -> Message {
    Message::Transaction(MessageTransaction {
        transaction: MessageTransactionInfo {
            signature: Signature { bytes: [index as u8; 64] },
            is_vote: false,
            transaction: vec![],
            meta: vec![],
            index,
        },
        slot,
    })
}

fn meta(slot: u64, count: u64) -> Message {
    Message::BlockMeta(MessageBlockMeta {
        parent_slot: slot.saturating_sub(1),
        slot,
        parent_blockhash: String::new(),
        blockhash: format!("hash{slot}"),
        rewards: vec![],
        block_time: None,
        block_height: None,
        executed_transaction_count: count,
    })
}

fn slot(slot: u64, status: CommitmentLevel) -> Message {
    Message::Slot(MessageSlot { slot, parent: slot.checked_sub(1), status })
}

fn tag(message: &Message) -> String {
    match message {
        Message::Slot(m) => format!("slot {} {:?}", m.slot, m.status),
        Message::Account(m) => format!(
            "account {} v{} {:?}",
            m.account.pubkey.head as u8, m.account.write_version, m.account.data
        ),
        Message::Transaction(m) => format!("tx {}", m.transaction.index),
        Message::Block(m) => format!(
            "block {} {:?}",
            m.slot,
            m.transactions.iter().map(|tx| tx.index).collect::<Vec<u64>>()
        ),
        Message::BlockMeta(m) => format!("meta {}", m.slot),
    }
}

fn tags(batch: &Batch) -> Vec<String> {
    batch.messages.iter().map(tag).collect()
}

#[test]
fn constants_of_the_processed_channel() {
    assert_eq!(PROCESSED_MESSAGES_MAX, 31);
    assert_eq!(PROCESSED_MESSAGES_SLEEP_MS, 10);
}

#[test]
fn slot_status_goes_out_on_every_channel() {
    for status in [
        CommitmentLevel::Processed,
        CommitmentLevel::Confirmed,
        CommitmentLevel::Finalized,
    ] {
        let mut state = GeyserLoop::new();
        let output = state.on_message(slot(4, status));
        assert!(output.resets_timer());
        assert_eq!(output.invalid_full_block, None);
        assert_eq!(tag(&output.block_meta.unwrap()), format!("slot 4 {status:?}"));
        let commitments: Vec<CommitmentLevel> =
            output.batches.iter().map(|batch| batch.commitment).collect();
        assert_eq!(
            commitments,
            vec![
                CommitmentLevel::Processed,
                CommitmentLevel::Confirmed,
                CommitmentLevel::Finalized
            ]
        );
        for batch in &output.batches {
            assert_eq!(tags(batch), vec![format!("slot 4 {status:?}")]);
        }
    }
}

#[test]
fn dedup_in_slot_at_confirmed() {
    let mut state = GeyserLoop::new();
    assert!(state.on_message(account(10, 1, 1, vec![0x01])).batches.is_empty());
    assert!(state.on_message(account(10, 1, 2, vec![0x02])).batches.is_empty());
    assert!(state.on_message(account(10, 1, 1, vec![0x03])).batches.is_empty());
    let output = state.on_message(slot(10, CommitmentLevel::Confirmed));
    assert_eq!(output.batches.len(), 3);
    assert_eq!(
        tags(&output.batches[0]),
        vec!["account 1 v1 [1]", "account 1 v2 [2]", "account 1 v1 [3]", "slot 10 Confirmed"]
    );
    assert_eq!(output.batches[1].commitment, CommitmentLevel::Confirmed);
    assert_eq!(tags(&output.batches[1]), vec!["account 1 v2 [2]", "slot 10 Confirmed"]);
    assert_eq!(tags(&output.batches[2]), vec!["slot 10 Confirmed"]);
}

#[test]
fn finalized_batch_repeats_the_confirmed_one() {
    let mut state = GeyserLoop::new();
    state.on_message(tx(10, 0));
    state.on_message(account(10, 1, 1, vec![1]));
    state.on_message(account(10, 2, 1, vec![2]));
    state.on_message(account(10, 1, 5, vec![3]));
    state.on_message(slot(10, CommitmentLevel::Processed));
    let confirmed = state.on_message(slot(10, CommitmentLevel::Confirmed));
    assert_eq!(
        tags(&confirmed.batches[1]),
        vec!["tx 0", "account 2 v1 [2]", "account 1 v5 [3]", "slot 10 Confirmed"]
    );
    let finalized = state.on_message(slot(10, CommitmentLevel::Finalized));
    assert_eq!(tags(&finalized.batches[1]), vec!["slot 10 Finalized"]);
    assert_eq!(
        tags(&finalized.batches[2]),
        vec!["tx 0", "account 2 v1 [2]", "account 1 v5 [3]", "slot 10 Finalized"]
    );
    let again = state.on_message(slot(10, CommitmentLevel::Finalized));
    assert_eq!(tags(&again.batches[2]), vec!["slot 10 Finalized"]);
}

#[test]
fn messages_between_confirmed_and_finalized_join_the_finalized_batch() {
    let mut state = GeyserLoop::new();
    state.on_message(tx(10, 0));
    state.on_message(account(10, 1, 1, vec![1]));
    let confirmed = state.on_message(slot(10, CommitmentLevel::Confirmed));
    assert_eq!(tags(&confirmed.batches[1]), vec!["tx 0", "account 1 v1 [1]", "slot 10 Confirmed"]);
    state.on_message(tx(10, 1));
    state.on_message(account(10, 1, 2, vec![2]));
    state.on_message(tx(11, 0));
    state.on_message(slot(9, CommitmentLevel::Finalized));
    let finalized = state.on_message(slot(10, CommitmentLevel::Finalized));
    assert_eq!(
        tags(&finalized.batches[2]),
        vec!["tx 0", "tx 1", "account 1 v2 [2]", "slot 10 Finalized"]
    );
}

#[test]
fn finalizing_a_later_slot_drops_the_earlier_ones() {
    let mut state = GeyserLoop::new();
    state.on_message(tx(10, 0));
    state.on_message(tx(11, 0));
    state.on_message(tx(12, 0));
    let finalized = state.on_message(slot(11, CommitmentLevel::Finalized));
    assert_eq!(tags(&finalized.batches[2]), vec!["tx 0", "slot 11 Finalized"]);
    let earlier = state.on_message(slot(10, CommitmentLevel::Confirmed));
    assert_eq!(tags(&earlier.batches[1]), vec!["slot 10 Confirmed"]);
    let later = state.on_message(slot(12, CommitmentLevel::Confirmed));
    assert_eq!(tags(&later.batches[1]), vec!["tx 0", "slot 12 Confirmed"]);
}

#[test]
fn block_is_published_before_the_message_that_completes_it() {
    let mut state = GeyserLoop::new();
    assert!(state.on_message(tx(7, 2)).batches.is_empty());
    let with_meta = state.on_message(meta(7, 3));
    assert!(with_meta.batches.is_empty());
    assert_eq!(tag(&with_meta.block_meta.unwrap()), "meta 7");
    assert!(state.on_message(tx(7, 0)).batches.is_empty());
    let completing = state.on_message(tx(7, 1));
    assert!(completing.batches.is_empty());
    assert!(completing.block_meta.is_none());
    assert_eq!(state.waiting(), 5);
    let batch = state.on_timer().expect("five messages wait");
    assert_eq!(batch.commitment, CommitmentLevel::Processed);
    assert_eq!(tags(&batch), vec!["tx 2", "meta 7", "tx 0", "block 7 [0, 1, 2]", "tx 1"]);
    let confirmed = state.on_message(slot(7, CommitmentLevel::Confirmed));
    assert_eq!(
        tags(&confirmed.batches[1]),
        vec!["tx 2", "meta 7", "tx 0", "block 7 [0, 1, 2]", "tx 1", "slot 7 Confirmed"]
    );
}

#[test]
fn invalid_full_block_is_reported_once() {
    let mut state = GeyserLoop::new();
    state.on_message(meta(5, 2));
    state.on_message(tx(5, 0));
    let output = state.on_message(slot(5, CommitmentLevel::Finalized));
    assert_eq!(output.invalid_full_block, Some(1));
    for batch in &output.batches {
        assert!(batch.messages.iter().all(|message| !matches!(message, Message::Block(_))));
    }
    assert_eq!(tags(&output.batches[2]), vec!["meta 5", "tx 0", "slot 5 Finalized"]);
    let again = state.on_message(slot(5, CommitmentLevel::Finalized));
    assert_eq!(again.invalid_full_block, None);
    assert!(state.on_message(tx(5, 1)).batches.is_empty());
    assert_eq!(state.waiting(), 1);
}

#[test]
fn confirmed_slot_finalizes_no_pending_block() {
    let mut state = GeyserLoop::new();
    state.on_message(meta(5, 2));
    state.on_message(tx(5, 0));
    let output = state.on_message(slot(5, CommitmentLevel::Confirmed));
    assert_eq!(output.invalid_full_block, None);
    state.on_message(tx(5, 1));
    let batch = state.on_timer().unwrap();
    assert_eq!(tags(&batch), vec!["block 5 [0, 1]", "tx 1"]);
}

#[test]
fn processed_batch_goes_out_when_full() {
    let mut state = GeyserLoop::new();
    for index in 0..30 {
        let output = state.on_message(tx(1, index));
        assert!(output.batches.is_empty());
        assert!(!output.resets_timer());
        assert!(output.block_meta.is_none());
    }
    assert_eq!(state.waiting(), 30);
    let output = state.on_message(tx(1, 30));
    assert!(output.resets_timer());
    assert_eq!(output.batches.len(), 1);
    assert_eq!(output.batches[0].commitment, CommitmentLevel::Processed);
    assert_eq!(
        tags(&output.batches[0]),
        (0..31).map(|index| format!("tx {index}")).collect::<Vec<String>>()
    );
    assert_eq!(state.waiting(), 0);
    for index in 0..5 {
        assert!(state.on_message(tx(1, index)).batches.is_empty());
    }
    let batch = state.on_timer().expect("five messages wait");
    assert_eq!(batch.commitment, CommitmentLevel::Processed);
    assert_eq!(batch.messages.len(), 5);
    assert!(state.on_timer().is_none());
    assert_eq!(state.waiting(), 0);
}

#[test]
fn block_can_fill_the_processed_batch() {
    let mut state = GeyserLoop::new();
    for index in 0..29 {
        state.on_message(account(1, index, 1, vec![]));
    }
    state.on_message(meta(2, 1));
    assert_eq!(state.waiting(), 30);
    let output = state.on_message(tx(2, 0));
    assert_eq!(output.batches.len(), 1);
    assert_eq!(output.batches[0].messages.len(), 31);
    assert_eq!(tag(output.batches[0].messages.last().unwrap()), "block 2 [0]");
    assert_eq!(state.waiting(), 1);
    let batch = state.on_timer().unwrap();
    assert_eq!(tags(&batch), vec!["tx 0"]);
}

#[test]
fn slot_status_flushes_the_processed_batch() {
    let mut state = GeyserLoop::new();
    state.on_message(tx(1, 0));
    state.on_message(account(1, 1, 1, vec![7]));
    let output = state.on_message(slot(1, CommitmentLevel::Processed));
    assert_eq!(tags(&output.batches[0]), vec!["tx 0", "account 1 v1 [7]", "slot 1 Processed"]);
    assert_eq!(tags(&output.batches[1]), vec!["slot 1 Processed"]);
    assert_eq!(tags(&output.batches[2]), vec!["slot 1 Processed"]);
    assert_eq!(state.waiting(), 0);
    assert!(state.on_timer().is_none());
}

#[test]
fn timer_on_an_idle_loop_publishes_nothing() {
    let mut state = GeyserLoop::new();
    assert!(state.on_timer().is_none());
    assert_eq!(state.waiting(), 0);
}
