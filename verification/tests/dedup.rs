use yellowstone_grpc_geyser::commitment::CommitmentLevel;
use yellowstone_grpc_geyser::message::{
    Message, MessageAccount, MessageAccountInfo, MessageBlockMeta, MessageSlot,
    MessageTransaction, MessageTransactionInfo, Pubkey, Signature,
};
use yellowstone_grpc_geyser::message_store::MessageStore;
use yellowstone_grpc_geyser::pubkey_index::{IndexEntry, PubkeyIndex};
use yellowstone_grpc_geyser::slot_messages::SlotMessages;

fn key(byte: u8) -> Pubkey {
    Pubkey::from_slice(&[byte; 32]).unwrap()
}

fn account(slot: u64, pubkey: Pubkey, write_version: u64, data: Vec<u8>) -> Message {
    Message::Account(MessageAccount {
        account: MessageAccountInfo {
            pubkey,
            lamports: 1,
            owner: key(200),
            executable: false,
            rent_epoch: 0,
            data,
            write_version,
            txn_signature: None,
        },
        slot,
        is_startup: false,
    })
}

fn tx(slot: u64, index: u64) -> Message {
    Message::Transaction(MessageTransaction {
        transaction: MessageTransactionInfo {
            signature: Signature { bytes: [index as u8; 64] },
            is_vote: false,
            transaction: vec![],
            meta: vec![],
            index,
        },
        slot,
    })
}

fn meta(slot: u64) -> Message {
    Message::BlockMeta(MessageBlockMeta {
        parent_slot: 0,
        slot,
        parent_blockhash: String::new(),
        blockhash: format!("hash{slot}"),
        rewards: vec![],
        block_time: None,
        block_height: None,
        executed_transaction_count: 1000,
    })
}

/// What a message is, short enough to compare lists of them.
fn tag(message: &Message) -> String {
    match message {
        Message::Slot(m) => format!("slot {} {:?}", m.slot, m.status),
        Message::Account(m) => format!(
            "account {} v{} {:?}",
            m.account.pubkey.head as u8, m.account.write_version, m.account.data
        ),
        Message::Transaction(m) => format!("tx {}", m.transaction.index),
        Message::Block(m) => format!("block {}", m.slot),
        Message::BlockMeta(m) => format!("meta {}", m.slot),
    }
}

fn tags(messages: &[Message]) -> Vec<String> {
    messages.iter().map(tag).collect()
}

#[test]
fn index_get_and_set() {
    let mut index = PubkeyIndex::new();
    assert_eq!(index.get(&key(1)), None);
    index.set(key(1), IndexEntry { write_version: 5, position: 0 });
    index.set(key(2), IndexEntry { write_version: 6, position: 1 });
    assert_eq!(index.get(&key(1)), Some(IndexEntry { write_version: 5, position: 0 }));
    assert_eq!(index.get(&key(2)), Some(IndexEntry { write_version: 6, position: 1 }));
    index.set(key(1), IndexEntry { write_version: 9, position: 2 });
    assert_eq!(index.get(&key(1)), Some(IndexEntry { write_version: 9, position: 2 }));
    assert_eq!(index.get(&key(3)), None);
}

#[test]
fn index_tells_keys_with_a_shared_word_apart() {
    let mut first = [0u8; 32];
    let mut second = [0u8; 32];
    first[20] = 1;
    second[20] = 2;
    let first = Pubkey::from_slice(&first).unwrap();
    let second = Pubkey::from_slice(&second).unwrap();
    assert_eq!(first.head, second.head);
    let mut index = PubkeyIndex::new();
    index.set(first, IndexEntry { write_version: 1, position: 0 });
    assert_eq!(index.get(&second), None);
    index.set(second, IndexEntry { write_version: 2, position: 1 });
    assert_eq!(index.get(&first), Some(IndexEntry { write_version: 1, position: 0 }));
    assert_eq!(index.get(&second), Some(IndexEntry { write_version: 2, position: 1 }));
}

#[test]
fn dedup_in_slot() {
    let mut messages = SlotMessages::new();
    messages.insert(account(10, key(1), 1, vec![0x01]));
    messages.insert(account(10, key(1), 2, vec![0x02]));
    messages.insert(account(10, key(1), 1, vec![0x03]));
    assert_eq!(tags(&messages.live()), vec!["account 1 v2 [2]"]);
}

#[test]
fn equal_write_version_keeps_the_first() {
    let mut messages = SlotMessages::new();
    messages.insert(account(10, key(1), 4, vec![1]));
    messages.insert(account(10, key(1), 4, vec![2]));
    assert_eq!(tags(&messages.live()), vec!["account 1 v4 [1]"]);
}

#[test]
fn replacement_moves_to_the_end() {
    let mut messages = SlotMessages::new();
    messages.insert(account(10, key(1), 1, vec![1]));
    messages.insert(tx(10, 0));
    messages.insert(account(10, key(2), 1, vec![2]));
    messages.insert(meta(10));
    messages.insert(account(10, key(1), 2, vec![3]));
    messages.insert(tx(10, 1));
    messages.insert(account(10, key(2), 1, vec![4]));
    messages.insert(account(10, key(1), 3, vec![5]));
    assert_eq!(
        tags(&messages.live()),
        vec!["tx 0", "account 2 v1 [2]", "meta 10", "tx 1", "account 1 v3 [5]"]
    );
    assert_eq!(tags(&messages.live()), tags(&messages.into_live()));
}

#[test]
fn other_messages_are_never_dropped() {
    let mut messages = SlotMessages::new();
    messages.insert(tx(10, 0));
    messages.insert(tx(10, 0));
    messages.insert(meta(10));
    messages.insert(meta(10));
    assert_eq!(tags(&messages.into_live()), vec!["tx 0", "tx 0", "meta 10", "meta 10"]);
}

#[test]
fn an_empty_slot_holds_nothing() {
    let messages = SlotMessages::new();
    assert!(messages.live().is_empty());
    assert!(messages.into_live().is_empty());
}

#[test]
fn many_accounts_keep_their_winners() {
    let mut messages = SlotMessages::new();
    for round in 0..3u64 {
        for account_number in 0..100u8 {
            messages.insert(account(1, key(account_number), round + 1, vec![round as u8]));
        }
    }
    for account_number in 0..100u8 {
        messages.insert(account(1, key(account_number), 2, vec![9]));
    }
    let live = messages.into_live();
    assert_eq!(live.len(), 100);
    for (position, message) in live.iter().enumerate() {
        assert_eq!(tag(message), format!("account {position} v3 [2]"));
    }
}

#[test]
fn store_keeps_slots_apart() {
    let mut store = MessageStore::new();
    store.insert(account(10, key(1), 1, vec![1]));
    store.insert(account(11, key(1), 1, vec![2]));
    store.insert(account(10, key(1), 2, vec![3]));
    store.insert(tx(11, 0));
    assert_eq!(tags(&store.confirmed(10)), vec!["account 1 v2 [3]"]);
    assert_eq!(tags(&store.confirmed(11)), vec!["account 1 v1 [2]", "tx 0"]);
    assert!(store.confirmed(12).is_empty());
    assert_eq!(tags(&store.confirmed(10)), vec!["account 1 v2 [3]"]);
}

#[test]
fn store_finalize_takes_the_slot_and_drops_earlier_ones() {
    let mut store = MessageStore::new();
    for slot in 8..=12 {
        store.insert(tx(slot, slot));
    }
    assert_eq!(tags(&store.finalized(10)), vec!["tx 10"]);
    assert!(store.confirmed(8).is_empty());
    assert!(store.confirmed(9).is_empty());
    assert!(store.confirmed(10).is_empty());
    assert_eq!(tags(&store.confirmed(11)), vec!["tx 11"]);
    assert_eq!(tags(&store.confirmed(12)), vec!["tx 12"]);
    assert!(store.finalized(10).is_empty());
    assert!(store.finalized(13).is_empty());
    assert!(store.confirmed(12).is_empty());
}

#[test]
fn store_takes_slot_messages_too() {
    let mut store = MessageStore::new();
    store.insert(Message::Slot(MessageSlot {
        slot: 3,
        parent: None,
        status: CommitmentLevel::Processed,
    }));
    assert_eq!(tags(&store.confirmed(3)), vec!["slot 3 Processed"]);
}
