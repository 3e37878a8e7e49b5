use yellowstone_grpc_geyser::block_assembly::BlockAssembler;
use yellowstone_grpc_geyser::commitment::CommitmentLevel;
use yellowstone_grpc_geyser::message::{
    Message, MessageBlockMeta, MessageSlot, MessageTransaction, MessageTransactionInfo, Signature,
};
use yellowstone_grpc_geyser::sorting::sort_by_index;

fn meta(slot: u64, count: u64) -> Message {
    Message::BlockMeta(MessageBlockMeta {
        parent_slot: slot.saturating_sub(1),
        slot,
        parent_blockhash: format!("hash{}", slot.saturating_sub(1)),
        blockhash: format!("hash{slot}"),
        rewards: vec![],
        block_time: None,
        block_height: Some(slot + 100),
        executed_transaction_count: count,
    })
}

fn info(index: u64, tag: u8) -> MessageTransactionInfo {
    MessageTransactionInfo {
        signature: Signature { bytes: [tag; 64] },
        is_vote: false,
        transaction: vec![tag],
        meta: vec![],
        index,
    }
}

fn tx(slot: u64, index: u64) -> Message {
    Message::Transaction(MessageTransaction { transaction: info(index, index as u8), slot })
}

#[test]
fn block_assembly_in_index_order() {
    let mut assembler = BlockAssembler::new();
    assert!(assembler.collect(&tx(7, 2)).is_none());
    assert!(assembler.collect(&meta(7, 3)).is_none());
    assert!(assembler.collect(&tx(7, 0)).is_none());
    assert_eq!(assembler.len(), 1);
    let block = assembler.collect(&tx(7, 1)).expect("the third transaction completes the block");
    assert_eq!(block.slot, 7);
    assert_eq!(block.parent_slot, 6);
    assert_eq!(block.blockhash, "hash7");
    assert_eq!(block.parent_blockhash, "hash6");
    assert_eq!(block.block_height, Some(107));
    let indices: Vec<u64> = block.transactions.iter().map(|tx| tx.index).collect();
    assert_eq!(indices, vec![0, 1, 2]);
    assert_eq!(assembler.len(), 0);
}

#[test]
fn block_is_emitted_when_meta_comes_last() {
    let mut assembler = BlockAssembler::new();
    assert!(assembler.collect(&tx(3, 1)).is_none());
    assert!(assembler.collect(&tx(3, 0)).is_none());
    let block = assembler.collect(&meta(3, 2)).expect("the metadata completes the block");
    let indices: Vec<u64> = block.transactions.iter().map(|tx| tx.index).collect();
    assert_eq!(indices, vec![0, 1]);
    assert_eq!(assembler.len(), 0);
}

#[test]
fn empty_block_is_emitted_at_once() {
    let mut assembler = BlockAssembler::new();
    let block = assembler.collect(&meta(3, 0)).expect("a block without transactions is complete");
    assert!(block.transactions.is_empty());
    assert_eq!(assembler.len(), 0);
}

#[test]
fn no_block_without_meta_or_with_other_count() {
    let mut assembler = BlockAssembler::new();
    for index in 0..5 {
        assert!(assembler.collect(&tx(3, index)).is_none());
    }
    assert!(assembler.collect(&meta(3, 4)).is_none());
    assert!(assembler.collect(&meta(3, 6)).is_none());
    assert!(assembler.collect(&tx(3, 5)).is_some());
}

#[test]
fn slots_are_assembled_apart() {
    let mut assembler = BlockAssembler::new();
    assert!(assembler.collect(&meta(1, 1)).is_none());
    assert!(assembler.collect(&meta(2, 1)).is_none());
    assert_eq!(assembler.len(), 2);
    let second = assembler.collect(&tx(2, 0)).unwrap();
    assert_eq!(second.slot, 2);
    let first = assembler.collect(&tx(1, 0)).unwrap();
    assert_eq!(first.slot, 1);
    assert_eq!(assembler.len(), 0);
}

#[test]
fn other_messages_are_not_collected() {
    let mut assembler = BlockAssembler::new();
    let slot = Message::Slot(MessageSlot {
        slot: 1,
        parent: None,
        status: CommitmentLevel::Processed,
    });
    assert!(assembler.collect(&slot).is_none());
    assert_eq!(assembler.len(), 0);
}

#[test]
fn invalid_block_on_finalize() {
    let mut assembler = BlockAssembler::new();
    assert!(assembler.collect(&meta(5, 2)).is_none());
    assert!(assembler.collect(&tx(5, 0)).is_none());
    assert_eq!(assembler.finalize(5), Some(1));
    assert_eq!(assembler.len(), 0);
    assert_eq!(assembler.finalize(5), None);
}

#[test]
fn finalize_drops_earlier_slots_silently() {
    let mut assembler = BlockAssembler::new();
    assert!(assembler.collect(&meta(3, 9)).is_none());
    assert!(assembler.collect(&tx(4, 0)).is_none());
    assert!(assembler.collect(&tx(5, 0)).is_none());
    assert!(assembler.collect(&meta(6, 2)).is_none());
    assert!(assembler.collect(&tx(7, 0)).is_none());
    assert_eq!(assembler.len(), 5);
    assert_eq!(assembler.finalize(5), None);
    assert_eq!(assembler.len(), 2);
    assert!(assembler.collect(&tx(6, 0)).is_none());
    assert!(assembler.collect(&tx(6, 1)).is_some());
    assert_eq!(assembler.finalize(u64::MAX), None);
    assert_eq!(assembler.len(), 0);
}

#[test]
fn finalize_reports_meta_without_transactions() {
    let mut assembler = BlockAssembler::new();
    assert!(assembler.collect(&meta(5, 2)).is_none());
    assert_eq!(assembler.finalize(5), Some(0));
}

#[test]
fn finalize_of_an_empty_assembler() {
    let mut assembler = BlockAssembler::new();
    assert_eq!(assembler.finalize(0), None);
    assert_eq!(assembler.len(), 0);
}

#[test]
fn sort_is_stable() {
    let sorted = sort_by_index(vec![
        info(2, 10),
        info(1, 11),
        info(2, 12),
        info(0, 13),
        info(1, 14),
        info(2, 15),
    ]);
    let tags: Vec<(u64, u8)> = sorted.iter().map(|tx| (tx.index, tx.transaction[0])).collect();
    assert_eq!(tags, vec![(0, 13), (1, 11), (1, 14), (2, 10), (2, 12), (2, 15)]);
}

#[test]
fn sort_of_nothing_and_of_sorted() {
    assert!(sort_by_index(vec![]).is_empty());
    let sorted = sort_by_index((0..50).map(|i| info(i, i as u8)).collect());
    let indices: Vec<u64> = sorted.iter().map(|tx| tx.index).collect();
    assert_eq!(indices, (0..50).collect::<Vec<u64>>());
    let reversed = sort_by_index((0..50).rev().map(|i| info(i, i as u8)).collect());
    let indices: Vec<u64> = reversed.iter().map(|tx| tx.index).collect();
    assert_eq!(indices, (0..50).collect::<Vec<u64>>());
}
