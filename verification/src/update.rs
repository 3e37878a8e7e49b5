//! The updates that go out to subscribers, and how a message becomes one.

use vstd::prelude::*;
use vstd::slice::slice_subrange;
use crate::message::{
    Message, MessageAccountView, MessageBlockMetaView, MessageBlockView, MessageSlot,
    MessageTransactionInfo, MessageTransactionInfoView, MessageTransactionView, MessageView,
};

verus! {

/// A range of account data that a subscriber asks for: `length` bytes from
/// `start` on, that is the bytes before `end`.
#[derive(Debug, Clone, Copy, PartialEq, Eq)]
pub struct FilterAccountsDataSlice {
    start: usize,
    end: usize,
    length: usize,
}

impl FilterAccountsDataSlice {
    #[verifier::type_invariant]
    spec fn ends_after_start(self) -> bool {
        self.start + self.length == self.end
    }

    /// The first byte of the range.
    pub closed spec fn start_at(self) -> nat {
        self.start as nat
    }

    /// The byte behind the range.
    pub closed spec fn end_at(self) -> nat {
        self.end as nat
    }

    /// The range of `length` bytes from `start` on, unless its end cannot be
    /// addressed.
    pub fn new(start: usize, length: usize) -> (slice: Option<Self>)
        ensures
            slice is Some <==> start + length <= usize::MAX,
            slice matches Some(slice) ==> slice.start_at() == start && slice.end_at() == start
                + length,
    {
        match start.checked_add(length) {
            Some(end) => Some(FilterAccountsDataSlice { start, end, length }),
            None => None,
        }
    }

    /// The first byte of the range.
    pub fn start(&self) -> (start: usize)
        ensures
            start == self.start_at(),
    {
        self.start
    }

    /// The byte behind the range.
    pub fn end(&self) -> (end: usize)
        ensures
            end == self.end_at(),
            self.start_at() <= end,
    {
        proof {
            use_type_invariant(self);
        }
        self.end
    }

    /// The number of bytes in the range.
    pub fn length(&self) -> (length: usize)
        ensures
            length == self.end_at() - self.start_at(),
    {
        proof {
            use_type_invariant(self);
        }
        self.length
    }
}

/// The bytes of the ranges, one range after the other; a range that ends
/// behind the data contributes nothing.
pub open spec fn sliced(data: Seq<u8>, slices: Seq<FilterAccountsDataSlice>) -> Seq<u8>
    decreases slices.len(),
{
    if slices.len() == 0 {
        Seq::empty()
    } else {
        let before = sliced(data, slices.drop_last());
        let last = slices.last();
        if last.start_at() <= last.end_at() <= data.len() {
            before + data.subrange(last.start_at() as int, last.end_at() as int)
        } else {
            before
        }
    }
}

/// The account data that a subscriber gets: all of it where it asks for no
/// ranges, else the ranges that it asks for.
pub open spec fn account_data(data: Seq<u8>, slices: Seq<FilterAccountsDataSlice>) -> Seq<u8> {
    if slices.len() == 0 {
        data
    } else {
        sliced(data, slices)
    }
}

/// Cuts account data to the ranges that a subscriber asks for; see
/// [`account_data`].
pub fn slice_account_data(data: &Vec<u8>, slices: &[FilterAccountsDataSlice]) -> (cut: Vec<u8>)
    ensures
        cut@ == account_data(data@, slices@),
{
    if slices.len() == 0 {
        return data.clone();
    }
    let mut cut: Vec<u8> = Vec::new();
    let mut i: usize = 0;
    assert(slices@.take(0) =~= Seq::<FilterAccountsDataSlice>::empty());
    while i < slices.len()
        invariant
            0 <= i <= slices.len(),
            cut@ == sliced(data@, slices@.take(i as int)),
        decreases slices.len() - i,
    {
        let slice = &slices[i];
        proof {
            assert(slices@.take(i + 1).drop_last() =~= slices@.take(i as int));
            assert(slices@.take(i + 1).last() == slices@[i as int]);
        }
        let end = slice.end();
        if data.len() >= end {
            let ghost before = cut@;
            let part = slice_subrange(data.as_slice(), slice.start(), end);
            cut.extend_from_slice(part);
            assert(cut@ =~= before + data@.subrange(slice.start_at() as int, slice.end_at() as int));
        }
        i += 1;
    }
    assert(slices@.take(i as int) =~= slices@);
    cut
}

/// An account update as a subscriber gets it.
#[derive(Debug)]
pub struct SubscribeUpdateAccount {
    pub pubkey: Vec<u8>,
    pub lamports: u64,
    pub owner: Vec<u8>,
    pub executable: bool,
    pub rent_epoch: u64,
    pub data: Vec<u8>,
    pub write_version: u64,
    pub txn_signature: Option<Vec<u8>>,
    pub slot: u64,
    pub is_startup: bool,
}

#[verifier::ext_equal]
pub struct SubscribeUpdateAccountView {
    pub pubkey: Seq<u8>,
    pub lamports: u64,
    pub owner: Seq<u8>,
    pub executable: bool,
    pub rent_epoch: u64,
    pub data: Seq<u8>,
    pub write_version: u64,
    pub txn_signature: Option<Seq<u8>>,
    pub slot: u64,
    pub is_startup: bool,
}

impl View for SubscribeUpdateAccount {
    type V = SubscribeUpdateAccountView;

    open spec fn view(&self) -> SubscribeUpdateAccountView {
        SubscribeUpdateAccountView {
            pubkey: self.pubkey@,
            lamports: self.lamports,
            owner: self.owner@,
            executable: self.executable,
            rent_epoch: self.rent_epoch,
            data: self.data@,
            write_version: self.write_version,
            txn_signature: match self.txn_signature {
                Some(signature) => Some(signature@),
                None => None,
            },
            slot: self.slot,
            is_startup: self.is_startup,
        }
    }
}

/// A slot status as a subscriber gets it; the status is the wire number of
/// the commitment level.
#[derive(Debug, Clone, Copy, PartialEq, Eq, Structural)]
pub struct SubscribeUpdateSlot {
    pub slot: u64,
    pub parent: Option<u64>,
    pub status: i32,
}

/// A transaction as a subscriber gets it.
#[derive(Debug)]
pub struct SubscribeUpdateTransactionInfo {
    pub signature: Vec<u8>,
    pub is_vote: bool,
    pub transaction: Vec<u8>,
    pub meta: Vec<u8>,
    pub index: u64,
}

#[verifier::ext_equal]
pub struct SubscribeUpdateTransactionInfoView {
    pub signature: Seq<u8>,
    pub is_vote: bool,
    pub transaction: Seq<u8>,
    pub meta: Seq<u8>,
    pub index: u64,
}

impl View for SubscribeUpdateTransactionInfo {
    type V = SubscribeUpdateTransactionInfoView;

    open spec fn view(&self) -> SubscribeUpdateTransactionInfoView {
        SubscribeUpdateTransactionInfoView {
            signature: self.signature@,
            is_vote: self.is_vote,
            transaction: self.transaction@,
            meta: self.meta@,
            index: self.index,
        }
    }
}

impl SubscribeUpdateTransactionInfoView {
    /// The update that stands for a transaction.
    pub open spec fn of(transaction: MessageTransactionInfoView) -> Self {
        SubscribeUpdateTransactionInfoView {
            signature: transaction.signature.bytes@,
            is_vote: transaction.is_vote,
            transaction: transaction.transaction,
            meta: transaction.meta,
            index: transaction.index,
        }
    }
}

impl SubscribeUpdateTransactionInfo {
    /// The update that stands for a transaction.
    pub fn from(transaction: &MessageTransactionInfo) -> (update: Self)
        ensures
            update@ == SubscribeUpdateTransactionInfoView::of(transaction@),
    {
        SubscribeUpdateTransactionInfo {
            signature: transaction.signature.to_bytes(),
            is_vote: transaction.is_vote,
            transaction: transaction.transaction.clone(),
            meta: transaction.meta.clone(),
            index: transaction.index,
        }
    }
}

/// A transaction in a slot as a subscriber gets it.
#[derive(Debug)]
pub struct SubscribeUpdateTransaction {
    pub transaction: SubscribeUpdateTransactionInfo,
    pub slot: u64,
}

#[verifier::ext_equal]
pub struct SubscribeUpdateTransactionView {
    pub transaction: SubscribeUpdateTransactionInfoView,
    pub slot: u64,
}

impl View for SubscribeUpdateTransaction {
    type V = SubscribeUpdateTransactionView;

    open spec fn view(&self) -> SubscribeUpdateTransactionView {
        SubscribeUpdateTransactionView { transaction: self.transaction@, slot: self.slot }
    }
}

/// A full block as a subscriber gets it.
#[derive(Debug)]
pub struct SubscribeUpdateBlock {
    pub slot: u64,
    pub blockhash: String,
    pub rewards: Vec<u8>,
    pub block_time: Option<i64>,
    pub block_height: Option<u64>,
    pub transactions: Vec<SubscribeUpdateTransactionInfo>,
    pub parent_slot: u64,
    pub parent_blockhash: String,
}

#[verifier::ext_equal]
pub struct SubscribeUpdateBlockView {
    pub slot: u64,
    pub blockhash: Seq<char>,
    pub rewards: Seq<u8>,
    pub block_time: Option<i64>,
    pub block_height: Option<u64>,
    pub transactions: Seq<SubscribeUpdateTransactionInfoView>,
    pub parent_slot: u64,
    pub parent_blockhash: Seq<char>,
}

impl View for SubscribeUpdateBlock {
    type V = SubscribeUpdateBlockView;

    open spec fn view(&self) -> SubscribeUpdateBlockView {
        SubscribeUpdateBlockView {
            slot: self.slot,
            blockhash: self.blockhash@,
            rewards: self.rewards@,
            block_time: self.block_time,
            block_height: self.block_height,
            transactions: Seq::new(
                self.transactions@.len(),
                |i: int| self.transactions@[i]@,
            ),
            parent_slot: self.parent_slot,
            parent_blockhash: self.parent_blockhash@,
        }
    }
}

/// The metadata of a block as a subscriber gets it.
#[derive(Debug)]
pub struct SubscribeUpdateBlockMeta {
    pub slot: u64,
    pub blockhash: String,
    pub rewards: Vec<u8>,
    pub block_time: Option<i64>,
    pub block_height: Option<u64>,
    pub parent_slot: u64,
    pub parent_blockhash: String,
    pub executed_transaction_count: u64,
}

#[verifier::ext_equal]
pub struct SubscribeUpdateBlockMetaView {
    pub slot: u64,
    pub blockhash: Seq<char>,
    pub rewards: Seq<u8>,
    pub block_time: Option<i64>,
    pub block_height: Option<u64>,
    pub parent_slot: u64,
    pub parent_blockhash: Seq<char>,
    pub executed_transaction_count: u64,
}

impl View for SubscribeUpdateBlockMeta {
    type V = SubscribeUpdateBlockMetaView;

    open spec fn view(&self) -> SubscribeUpdateBlockMetaView {
        SubscribeUpdateBlockMetaView {
            slot: self.slot,
            blockhash: self.blockhash@,
            rewards: self.rewards@,
            block_time: self.block_time,
            block_height: self.block_height,
            parent_slot: self.parent_slot,
            parent_blockhash: self.parent_blockhash@,
            executed_transaction_count: self.executed_transaction_count,
        }
    }
}

/// An update for a subscriber.
#[derive(Debug)]
pub enum UpdateOneof {
    Account(SubscribeUpdateAccount),
    Slot(SubscribeUpdateSlot),
    Transaction(SubscribeUpdateTransaction),
    Block(SubscribeUpdateBlock),
    Ping,
    BlockMeta(SubscribeUpdateBlockMeta),
}

#[verifier::ext_equal]
pub enum UpdateOneofView {
    Account(SubscribeUpdateAccountView),
    Slot(SubscribeUpdateSlot),
    Transaction(SubscribeUpdateTransactionView),
    Block(SubscribeUpdateBlockView),
    Ping,
    BlockMeta(SubscribeUpdateBlockMetaView),
}

impl View for UpdateOneof {
    type V = UpdateOneofView;

    open spec fn view(&self) -> UpdateOneofView {
        match self {
            UpdateOneof::Account(update) => UpdateOneofView::Account(update@),
            UpdateOneof::Slot(update) => UpdateOneofView::Slot(*update),
            UpdateOneof::Transaction(update) => UpdateOneofView::Transaction(update@),
            UpdateOneof::Block(update) => UpdateOneofView::Block(update@),
            UpdateOneof::Ping => UpdateOneofView::Ping,
            UpdateOneof::BlockMeta(update) => UpdateOneofView::BlockMeta(update@),
        }
    }
}

/// The update that stands for a slot status.
pub open spec fn slot_update(message: MessageSlot) -> SubscribeUpdateSlot {
    SubscribeUpdateSlot {
        slot: message.slot,
        parent: message.parent,
        status: message.status.rank() as i32,
    }
}

/// The update that stands for an account update, with the data cut to the
/// ranges that the subscriber asks for.
pub open spec fn account_update(
    message: MessageAccountView,
    slices: Seq<FilterAccountsDataSlice>,
) -> SubscribeUpdateAccountView {
    SubscribeUpdateAccountView {
        pubkey: message.account.pubkey.bytes(),
        lamports: message.account.lamports,
        owner: message.account.owner.bytes(),
        executable: message.account.executable,
        rent_epoch: message.account.rent_epoch,
        data: account_data(message.account.data, slices),
        write_version: message.account.write_version,
        txn_signature: match message.account.txn_signature {
            Some(signature) => Some(signature.bytes@),
            None => None,
        },
        slot: message.slot,
        is_startup: message.is_startup,
    }
}

/// The update that stands for a transaction in a slot.
pub open spec fn transaction_update(
    message: MessageTransactionView,
) -> SubscribeUpdateTransactionView {
    SubscribeUpdateTransactionView {
        transaction: SubscribeUpdateTransactionInfoView::of(message.transaction),
        slot: message.slot,
    }
}

/// The update that stands for a full block.
pub open spec fn block_update(message: MessageBlockView) -> SubscribeUpdateBlockView {
    SubscribeUpdateBlockView {
        slot: message.slot,
        blockhash: message.blockhash,
        rewards: message.rewards,
        block_time: message.block_time,
        block_height: message.block_height,
        transactions: Seq::new(
            message.transactions.len(),
            |i: int| SubscribeUpdateTransactionInfoView::of(message.transactions[i]),
        ),
        parent_slot: message.parent_slot,
        parent_blockhash: message.parent_blockhash,
    }
}

/// The update that stands for the metadata of a block.
pub open spec fn block_meta_update(message: MessageBlockMetaView) -> SubscribeUpdateBlockMetaView {
    SubscribeUpdateBlockMetaView {
        slot: message.slot,
        blockhash: message.blockhash,
        rewards: message.rewards,
        block_time: message.block_time,
        block_height: message.block_height,
        parent_slot: message.parent_slot,
        parent_blockhash: message.parent_blockhash,
        executed_transaction_count: message.executed_transaction_count,
    }
}

/// The update that stands for a message. Only the data of an account update
/// depends on the ranges that the subscriber asks for.
pub open spec fn update_of(
    message: MessageView,
    slices: Seq<FilterAccountsDataSlice>,
) -> UpdateOneofView {
    match message {
        MessageView::Slot(message) => UpdateOneofView::Slot(slot_update(message)),
        MessageView::Account(message) => UpdateOneofView::Account(account_update(message, slices)),
        MessageView::Transaction(message) => UpdateOneofView::Transaction(
            transaction_update(message),
        ),
        MessageView::Block(message) => UpdateOneofView::Block(block_update(message)),
        MessageView::BlockMeta(message) => UpdateOneofView::BlockMeta(block_meta_update(message)),
    }
}

impl Message {
    /// Turns the message into the update that a subscriber gets; see
    /// [`update_of`].
    pub fn to_proto(&self, accounts_data_slice: &[FilterAccountsDataSlice]) -> (update: UpdateOneof)
        ensures
            update@ == update_of(self@, accounts_data_slice@),
    {
        match self {
            Message::Slot(message) => UpdateOneof::Slot(
                SubscribeUpdateSlot {
                    slot: message.slot,
                    parent: message.parent,
                    status: message.status.as_i32(),
                },
            ),
            Message::Account(message) => {
                let txn_signature = match &message.account.txn_signature {
                    Some(signature) => Some(signature.to_bytes()),
                    None => None,
                };
                UpdateOneof::Account(
                    SubscribeUpdateAccount {
                        pubkey: message.account.pubkey.to_bytes(),
                        lamports: message.account.lamports,
                        owner: message.account.owner.to_bytes(),
                        executable: message.account.executable,
                        rent_epoch: message.account.rent_epoch,
                        data: slice_account_data(&message.account.data, accounts_data_slice),
                        write_version: message.account.write_version,
                        txn_signature,
                        slot: message.slot,
                        is_startup: message.is_startup,
                    },
                )
            },
            Message::Transaction(message) => UpdateOneof::Transaction(
                SubscribeUpdateTransaction {
                    transaction: SubscribeUpdateTransactionInfo::from(&message.transaction),
                    slot: message.slot,
                },
            ),
            Message::Block(message) => {
                let mut transactions: Vec<SubscribeUpdateTransactionInfo> = Vec::with_capacity(
                    message.transactions.len(),
                );
                let mut i: usize = 0;
                while i < message.transactions.len()
                    invariant
                        0 <= i <= message.transactions.len(),
                        transactions@.len() == i,
                        forall|j: int|
                            0 <= j < i ==> transactions@[j]@
                                == SubscribeUpdateTransactionInfoView::of(
                                message.transactions@[j]@,
                            ),
                    decreases message.transactions.len() - i,
                {
                    transactions.push(
                        SubscribeUpdateTransactionInfo::from(&message.transactions[i]),
                    );
                    i += 1;
                }
                let update = SubscribeUpdateBlock {
                    slot: message.slot,
                    blockhash: message.blockhash.clone(),
                    rewards: message.rewards.clone(),
                    block_time: message.block_time,
                    block_height: message.block_height,
                    transactions,
                    parent_slot: message.parent_slot,
                    parent_blockhash: message.parent_blockhash.clone(),
                };
                assert(update@.transactions =~= block_update(message@).transactions);
                UpdateOneof::Block(update)
            },
            Message::BlockMeta(message) => UpdateOneof::BlockMeta(
                SubscribeUpdateBlockMeta {
                    slot: message.slot,
                    blockhash: message.blockhash.clone(),
                    rewards: message.rewards.clone(),
                    block_time: message.block_time,
                    block_height: message.block_height,
                    parent_slot: message.parent_slot,
                    parent_blockhash: message.parent_blockhash.clone(),
                    executed_transaction_count: message.executed_transaction_count,
                },
            ),
        }
    }
}

} // verus!
