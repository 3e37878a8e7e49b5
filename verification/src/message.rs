//! The events that flow through the pipeline, and their mathematical views.
//!
//! Every event is anchored to a slot. Payloads that the pipeline only carries
//! (the canonical form of a transaction, its execution meta, the rewards of a
//! block) are held in their encoded form, as bytes.

use vstd::prelude::*;
use vstd::bytes::*;
use vstd::slice::*;
use vstd::string::*;
use crate::commitment::{CommitmentLevel, SlotStatus};

verus! {

/// A 32-byte account key, held as two little-endian words so that keys can
/// be compared and looked up as integers.
#[derive(Debug, Clone, Copy, PartialEq, Eq, Structural, Hash)]
pub struct Pubkey {
    /// Bytes 0..16 of the key.
    pub head: u128,
    /// Bytes 16..32 of the key.
    pub tail: u128,
}

impl Pubkey {
    /// The 32 bytes of the key.
    pub closed spec fn bytes(self) -> Seq<u8> {
        spec_u128_to_le_bytes(self.head) + spec_u128_to_le_bytes(self.tail)
    }

    /// Reads a key from a slice; only a slice of exactly 32 bytes is a key.
    pub fn from_slice(bytes: &[u8]) -> (key: Option<Pubkey>)
        ensures
            key is Some <==> bytes@.len() == 32,
            key matches Some(k) ==> k.bytes() == bytes@,
    {
        if bytes.len() != 32 {
            return None;
        }
        let first = slice_subrange(bytes, 0, 16);
        let second = slice_subrange(bytes, 16, 32);
        let key = Pubkey { head: u128_from_le_bytes(first), tail: u128_from_le_bytes(second) };
        proof {
            lemma_auto_spec_u128_to_from_le_bytes();
            assert(key.bytes() =~= bytes@);
        }
        Some(key)
    }

    /// The 32 bytes of the key, in a fresh vector.
    pub fn to_bytes(&self) -> (bytes: Vec<u8>)
        ensures
            bytes@ == self.bytes(),
    {
        let mut bytes = u128_to_le_bytes(self.head);
        let mut rest = u128_to_le_bytes(self.tail);
        bytes.append(&mut rest);
        bytes
    }
}

/// A key has 32 bytes, and two keys with the same bytes are the same key.
pub proof fn lemma_pubkey_bytes(a: Pubkey, b: Pubkey)
    ensures
        a.bytes().len() == 32,
        a.bytes() == b.bytes() ==> a == b,
{
    lemma_auto_spec_u128_to_from_le_bytes();
    if a.bytes() == b.bytes() {
        let x = spec_u128_to_le_bytes(a.head);
        let y = spec_u128_to_le_bytes(a.tail);
        let u = spec_u128_to_le_bytes(b.head);
        let v = spec_u128_to_le_bytes(b.tail);
        assert(x =~= (x + y).subrange(0, 16));
        assert(u =~= (u + v).subrange(0, 16));
        assert(y =~= (x + y).subrange(16, 32));
        assert(v =~= (u + v).subrange(16, 32));
        assert(spec_u128_from_le_bytes(x) == a.head);
        assert(spec_u128_from_le_bytes(u) == b.head);
        assert(spec_u128_from_le_bytes(y) == a.tail);
        assert(spec_u128_from_le_bytes(v) == b.tail);
    }
}

/// A 64-byte transaction signature.
#[derive(Debug, Clone, Copy)]
pub struct Signature {
    pub bytes: [u8; 64],
}

impl Signature {
    /// The 64 bytes of the signature, in a fresh vector.
    pub fn to_bytes(&self) -> (bytes: Vec<u8>)
        ensures
            bytes@ == self.bytes@,
    {
        slice_to_vec(self.bytes.as_slice())
    }
}

/// The state of an account after a write.
#[derive(Debug)]
pub struct MessageAccountInfo {
    pub pubkey: Pubkey,
    pub lamports: u64,
    pub owner: Pubkey,
    pub executable: bool,
    pub rent_epoch: u64,
    pub data: Vec<u8>,
    pub write_version: u64,
    pub txn_signature: Option<Signature>,
}

#[verifier::ext_equal]
pub struct MessageAccountInfoView {
    pub pubkey: Pubkey,
    pub lamports: u64,
    pub owner: Pubkey,
    pub executable: bool,
    pub rent_epoch: u64,
    pub data: Seq<u8>,
    pub write_version: u64,
    pub txn_signature: Option<Signature>,
}

impl View for MessageAccountInfo {
    type V = MessageAccountInfoView;

    open spec fn view(&self) -> MessageAccountInfoView {
        MessageAccountInfoView {
            pubkey: self.pubkey,
            lamports: self.lamports,
            owner: self.owner,
            executable: self.executable,
            rent_epoch: self.rent_epoch,
            data: self.data@,
            write_version: self.write_version,
            txn_signature: self.txn_signature,
        }
    }
}

impl Clone for MessageAccountInfo {
    fn clone(&self) -> (copy: Self)
        ensures
            copy@ == self@,
    {
        MessageAccountInfo {
            pubkey: self.pubkey,
            lamports: self.lamports,
            owner: self.owner,
            executable: self.executable,
            rent_epoch: self.rent_epoch,
            data: self.data.clone(),
            write_version: self.write_version,
            txn_signature: self.txn_signature,
        }
    }
}

/// An account update in a slot.
#[derive(Debug)]
pub struct MessageAccount {
    pub account: MessageAccountInfo,
    pub slot: u64,
    pub is_startup: bool,
}

#[verifier::ext_equal]
pub struct MessageAccountView {
    pub account: MessageAccountInfoView,
    pub slot: u64,
    pub is_startup: bool,
}

impl View for MessageAccount {
    type V = MessageAccountView;

    open spec fn view(&self) -> MessageAccountView {
        MessageAccountView { account: self.account@, slot: self.slot, is_startup: self.is_startup }
    }
}

impl Clone for MessageAccount {
    fn clone(&self) -> (copy: Self)
        ensures
            copy@ == self@,
    {
        MessageAccount {
            account: self.account.clone(),
            slot: self.slot,
            is_startup: self.is_startup,
        }
    }
}

/// An account update as the validator hands it over: keys and data are
/// still borrowed byte slices.
pub struct ReplicaAccountInfo<'a> {
    pub pubkey: &'a [u8],
    pub lamports: u64,
    pub owner: &'a [u8],
    pub executable: bool,
    pub rent_epoch: u64,
    pub data: &'a [u8],
    pub write_version: u64,
    pub txn_signature: Option<&'a Signature>,
}

impl MessageAccount {
    /// Takes an account update over from the validator. Both keys must have
    /// 32 bytes.
    pub fn from(account: &ReplicaAccountInfo<'_>, slot: u64, is_startup: bool) -> (message: Self)
        requires
            account.pubkey@.len() == 32,
            account.owner@.len() == 32,
        ensures
            message.slot == slot,
            message.is_startup == is_startup,
            message.account.pubkey.bytes() == account.pubkey@,
            message.account.owner.bytes() == account.owner@,
            message.account.lamports == account.lamports,
            message.account.executable == account.executable,
            message.account.rent_epoch == account.rent_epoch,
            message.account.data@ == account.data@,
            message.account.write_version == account.write_version,
            message.account.txn_signature == match account.txn_signature {
                Some(signature) => Some(*signature),
                None => None,
            },
    {
        let pubkey = Pubkey::from_slice(account.pubkey).unwrap();
        let owner = Pubkey::from_slice(account.owner).unwrap();
        let txn_signature = match account.txn_signature {
            Some(signature) => Some(*signature),
            None => None,
        };
        MessageAccount {
            account: MessageAccountInfo {
                pubkey,
                lamports: account.lamports,
                owner,
                executable: account.executable,
                rent_epoch: account.rent_epoch,
                data: slice_to_vec(account.data),
                write_version: account.write_version,
                txn_signature,
            },
            slot,
            is_startup,
        }
    }
}

/// A change of the status of a slot.
#[derive(Debug, Clone, Copy)]
pub struct MessageSlot {
    pub slot: u64,
    pub parent: Option<u64>,
    pub status: CommitmentLevel,
}

impl MessageSlot {
    /// The slot event for a status that the validator reported.
    pub open spec fn of_status(slot: u64, parent: Option<u64>, status: SlotStatus) -> MessageSlot {
        MessageSlot { slot, parent, status: CommitmentLevel::of_status(status) }
    }
}

impl From<(u64, Option<u64>, SlotStatus)> for MessageSlot {
    fn from(value: (u64, Option<u64>, SlotStatus)) -> (message: Self) {
        MessageSlot {
            slot: value.0,
            parent: value.1,
            status: CommitmentLevel::from_status(value.2),
        }
    }
}

impl vstd::std_specs::convert::FromSpecImpl<(u64, Option<u64>, SlotStatus)> for MessageSlot {
    open spec fn obeys_from_spec() -> bool {
        true
    }

    open spec fn from_spec(value: (u64, Option<u64>, SlotStatus)) -> MessageSlot {
        MessageSlot::of_status(value.0, value.1, value.2)
    }
}

/// A transaction with its outcome; the canonical form of the transaction and
/// the execution meta are carried as encoded bytes.
#[derive(Debug)]
pub struct MessageTransactionInfo {
    pub signature: Signature,
    pub is_vote: bool,
    pub transaction: Vec<u8>,
    pub meta: Vec<u8>,
    /// Position of the transaction within its block.
    pub index: u64,
}

#[verifier::ext_equal]
pub struct MessageTransactionInfoView {
    pub signature: Signature,
    pub is_vote: bool,
    pub transaction: Seq<u8>,
    pub meta: Seq<u8>,
    pub index: u64,
}

impl View for MessageTransactionInfo {
    type V = MessageTransactionInfoView;

    open spec fn view(&self) -> MessageTransactionInfoView {
        MessageTransactionInfoView {
            signature: self.signature,
            is_vote: self.is_vote,
            transaction: self.transaction@,
            meta: self.meta@,
            index: self.index,
        }
    }
}

impl Clone for MessageTransactionInfo {
    fn clone(&self) -> (copy: Self)
        ensures
            copy@ == self@,
    {
        MessageTransactionInfo {
            signature: self.signature,
            is_vote: self.is_vote,
            transaction: self.transaction.clone(),
            meta: self.meta.clone(),
            index: self.index,
        }
    }
}

/// The views of a sequence of transactions, one for one.
pub open spec fn transaction_views(transactions: Seq<MessageTransactionInfo>) -> Seq<
    MessageTransactionInfoView,
> {
    Seq::new(transactions.len(), |i: int| transactions[i]@)
}

/// Copies a list of transactions.
pub fn clone_transactions(transactions: &Vec<MessageTransactionInfo>) -> (copy: Vec<
    MessageTransactionInfo,
>)
    ensures
        transaction_views(copy@) == transaction_views(transactions@),
{
    let mut copy: Vec<MessageTransactionInfo> = Vec::with_capacity(transactions.len());
    let mut i: usize = 0;
    while i < transactions.len()
        invariant
            0 <= i <= transactions.len(),
            copy@.len() == i,
            forall|j: int| 0 <= j < i ==> copy@[j]@ == transactions@[j]@,
        decreases transactions.len() - i,
    {
        copy.push(transactions[i].clone());
        i += 1;
    }
    assert(transaction_views(copy@) =~= transaction_views(transactions@));
    copy
}

/// A transaction in a slot.
#[derive(Debug)]
pub struct MessageTransaction {
    pub transaction: MessageTransactionInfo,
    pub slot: u64,
}

#[verifier::ext_equal]
pub struct MessageTransactionView {
    pub transaction: MessageTransactionInfoView,
    pub slot: u64,
}

impl View for MessageTransaction {
    type V = MessageTransactionView;

    open spec fn view(&self) -> MessageTransactionView {
        MessageTransactionView { transaction: self.transaction@, slot: self.slot }
    }
}

impl Clone for MessageTransaction {
    fn clone(&self) -> (copy: Self)
        ensures
            copy@ == self@,
    {
        MessageTransaction { transaction: self.transaction.clone(), slot: self.slot }
    }
}

/// A transaction as the validator hands it over.
pub struct ReplicaTransactionInfo<'a> {
    pub signature: &'a Signature,
    pub is_vote: bool,
    pub transaction: &'a [u8],
    pub transaction_status_meta: &'a [u8],
    pub index: usize,
}

impl MessageTransaction {
    /// Takes a transaction over from the validator.
    pub fn from(transaction: &ReplicaTransactionInfo<'_>, slot: u64) -> (message: Self)
        ensures
            message.slot == slot,
            message.transaction.signature == *transaction.signature,
            message.transaction.is_vote == transaction.is_vote,
            message.transaction.transaction@ == transaction.transaction@,
            message.transaction.meta@ == transaction.transaction_status_meta@,
            message.transaction.index == transaction.index,
    {
        MessageTransaction {
            transaction: MessageTransactionInfo {
                signature: *transaction.signature,
                is_vote: transaction.is_vote,
                transaction: slice_to_vec(transaction.transaction),
                meta: slice_to_vec(transaction.transaction_status_meta),
                index: transaction.index as u64,
            },
            slot,
        }
    }
}

/// What is known of a block once it has been executed: everything but its
/// transactions. The rewards are carried as encoded bytes.
#[derive(Debug)]
pub struct MessageBlockMeta {
    pub parent_slot: u64,
    pub slot: u64,
    pub parent_blockhash: String,
    pub blockhash: String,
    pub rewards: Vec<u8>,
    pub block_time: Option<i64>,
    pub block_height: Option<u64>,
    pub executed_transaction_count: u64,
}

#[verifier::ext_equal]
pub struct MessageBlockMetaView {
    pub parent_slot: u64,
    pub slot: u64,
    pub parent_blockhash: Seq<char>,
    pub blockhash: Seq<char>,
    pub rewards: Seq<u8>,
    pub block_time: Option<i64>,
    pub block_height: Option<u64>,
    pub executed_transaction_count: u64,
}

impl View for MessageBlockMeta {
    type V = MessageBlockMetaView;

    open spec fn view(&self) -> MessageBlockMetaView {
        MessageBlockMetaView {
            parent_slot: self.parent_slot,
            slot: self.slot,
            parent_blockhash: self.parent_blockhash@,
            blockhash: self.blockhash@,
            rewards: self.rewards@,
            block_time: self.block_time,
            block_height: self.block_height,
            executed_transaction_count: self.executed_transaction_count,
        }
    }
}

impl Clone for MessageBlockMeta {
    fn clone(&self) -> (copy: Self)
        ensures
            copy@ == self@,
    {
        MessageBlockMeta {
            parent_slot: self.parent_slot,
            slot: self.slot,
            parent_blockhash: self.parent_blockhash.clone(),
            blockhash: self.blockhash.clone(),
            rewards: self.rewards.clone(),
            block_time: self.block_time,
            block_height: self.block_height,
            executed_transaction_count: self.executed_transaction_count,
        }
    }
}

/// The metadata of a block as the validator hands it over.
pub struct ReplicaBlockInfo<'a> {
    pub parent_slot: u64,
    pub parent_blockhash: &'a str,
    pub slot: u64,
    pub blockhash: &'a str,
    pub rewards: &'a [u8],
    pub block_time: Option<i64>,
    pub block_height: Option<u64>,
    pub executed_transaction_count: u64,
}

impl MessageBlockMeta {
    /// Takes the metadata of a block over from the validator.
    pub fn from(blockinfo: &ReplicaBlockInfo<'_>) -> (message: Self)
        ensures
            message@ == (MessageBlockMetaView {
                parent_slot: blockinfo.parent_slot,
                slot: blockinfo.slot,
                parent_blockhash: blockinfo.parent_blockhash@,
                blockhash: blockinfo.blockhash@,
                rewards: blockinfo.rewards@,
                block_time: blockinfo.block_time,
                block_height: blockinfo.block_height,
                executed_transaction_count: blockinfo.executed_transaction_count,
            }),
    {
        MessageBlockMeta {
            parent_slot: blockinfo.parent_slot,
            slot: blockinfo.slot,
            parent_blockhash: blockinfo.parent_blockhash.to_owned(),
            blockhash: blockinfo.blockhash.to_owned(),
            rewards: slice_to_vec(blockinfo.rewards),
            block_time: blockinfo.block_time,
            block_height: blockinfo.block_height,
            executed_transaction_count: blockinfo.executed_transaction_count,
        }
    }
}

/// A full block: its metadata joined with its transactions.
#[derive(Debug)]
pub struct MessageBlock {
    pub parent_slot: u64,
    pub slot: u64,
    pub parent_blockhash: String,
    pub blockhash: String,
    pub rewards: Vec<u8>,
    pub block_time: Option<i64>,
    pub block_height: Option<u64>,
    pub transactions: Vec<MessageTransactionInfo>,
}

#[verifier::ext_equal]
pub struct MessageBlockView {
    pub parent_slot: u64,
    pub slot: u64,
    pub parent_blockhash: Seq<char>,
    pub blockhash: Seq<char>,
    pub rewards: Seq<u8>,
    pub block_time: Option<i64>,
    pub block_height: Option<u64>,
    pub transactions: Seq<MessageTransactionInfoView>,
}

impl MessageBlockView {
    /// The block that joins `meta` with `transactions`, in the order given.
    pub open spec fn join(
        meta: MessageBlockMetaView,
        transactions: Seq<MessageTransactionInfoView>,
    ) -> MessageBlockView {
        MessageBlockView {
            parent_slot: meta.parent_slot,
            slot: meta.slot,
            parent_blockhash: meta.parent_blockhash,
            blockhash: meta.blockhash,
            rewards: meta.rewards,
            block_time: meta.block_time,
            block_height: meta.block_height,
            transactions,
        }
    }
}

impl View for MessageBlock {
    type V = MessageBlockView;

    open spec fn view(&self) -> MessageBlockView {
        MessageBlockView {
            parent_slot: self.parent_slot,
            slot: self.slot,
            parent_blockhash: self.parent_blockhash@,
            blockhash: self.blockhash@,
            rewards: self.rewards@,
            block_time: self.block_time,
            block_height: self.block_height,
            transactions: transaction_views(self.transactions@),
        }
    }
}

impl Clone for MessageBlock {
    fn clone(&self) -> (copy: Self)
        ensures
            copy@ == self@,
    {
        MessageBlock {
            parent_slot: self.parent_slot,
            slot: self.slot,
            parent_blockhash: self.parent_blockhash.clone(),
            blockhash: self.blockhash.clone(),
            rewards: self.rewards.clone(),
            block_time: self.block_time,
            block_height: self.block_height,
            transactions: clone_transactions(&self.transactions),
        }
    }
}

impl MessageBlock {
    /// Joins the metadata of a block with its transactions, in the order
    /// given.
    pub fn from(blockinfo: MessageBlockMeta, transactions: Vec<MessageTransactionInfo>) -> (block:
        Self)
        ensures
            block@ == MessageBlockView::join(blockinfo@, transaction_views(transactions@)),
    {
        MessageBlock {
            parent_slot: blockinfo.parent_slot,
            slot: blockinfo.slot,
            blockhash: blockinfo.blockhash,
            parent_blockhash: blockinfo.parent_blockhash,
            rewards: blockinfo.rewards,
            block_time: blockinfo.block_time,
            block_height: blockinfo.block_height,
            transactions,
        }
    }
}

/// An event of the pipeline.
#[derive(Debug)]
pub enum Message {
    Slot(MessageSlot),
    Account(MessageAccount),
    Transaction(MessageTransaction),
    Block(MessageBlock),
    BlockMeta(MessageBlockMeta),
}

#[verifier::ext_equal]
pub enum MessageView {
    Slot(MessageSlot),
    Account(MessageAccountView),
    Transaction(MessageTransactionView),
    Block(MessageBlockView),
    BlockMeta(MessageBlockMetaView),
}

impl MessageView {
    /// The slot that the event is anchored to.
    pub open spec fn slot(self) -> u64 {
        match self {
            MessageView::Slot(message) => message.slot,
            MessageView::Account(message) => message.slot,
            MessageView::Transaction(message) => message.slot,
            MessageView::Block(message) => message.slot,
            MessageView::BlockMeta(message) => message.slot,
        }
    }
}

impl View for Message {
    type V = MessageView;

    open spec fn view(&self) -> MessageView {
        match self {
            Message::Slot(message) => MessageView::Slot(*message),
            Message::Account(message) => MessageView::Account(message@),
            Message::Transaction(message) => MessageView::Transaction(message@),
            Message::Block(message) => MessageView::Block(message@),
            Message::BlockMeta(message) => MessageView::BlockMeta(message@),
        }
    }
}

impl Clone for Message {
    fn clone(&self) -> (copy: Self)
        ensures
            copy@ == self@,
    {
        match self {
            Message::Slot(message) => Message::Slot(*message),
            Message::Account(message) => Message::Account(message.clone()),
            Message::Transaction(message) => Message::Transaction(message.clone()),
            Message::Block(message) => Message::Block(message.clone()),
            Message::BlockMeta(message) => Message::BlockMeta(message.clone()),
        }
    }
}

impl Message {
    /// The slot that the event is anchored to.
    pub fn get_slot(&self) -> (slot: u64)
        ensures
            slot == self@.slot(),
    {
        match self {
            Message::Slot(message) => message.slot,
            Message::Account(message) => message.slot,
            Message::Transaction(message) => message.slot,
            Message::Block(message) => message.slot,
            Message::BlockMeta(message) => message.slot,
        }
    }
}

/// The views of a sequence of events, one for one.
pub open spec fn message_views(messages: Seq<Message>) -> Seq<MessageView> {
    Seq::new(messages.len(), |i: int| messages[i]@)
}

/// Copies a list of events.
pub fn clone_messages(messages: &Vec<Message>) -> (copy: Vec<Message>)
    ensures
        message_views(copy@) == message_views(messages@),
{
    let mut copy: Vec<Message> = Vec::with_capacity(messages.len());
    let mut i: usize = 0;
    while i < messages.len()
        invariant
            0 <= i <= messages.len(),
            copy@.len() == i,
            forall|j: int| 0 <= j < i ==> copy@[j]@ == messages@[j]@,
        decreases messages.len() - i,
    {
        copy.push(messages[i].clone());
        i += 1;
    }
    assert(message_views(copy@) =~= message_views(messages@));
    copy
}

} // verus!
