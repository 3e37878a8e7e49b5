//! Ordering the transactions of a block by their position in the block.

use vstd::prelude::*;
use crate::message::{MessageTransactionInfo, MessageTransactionInfoView, transaction_views};

verus! {

/// Whether the indices never decrease along the sequence.
pub open spec fn ascending(transactions: Seq<MessageTransactionInfoView>) -> bool {
    forall|i: int, j: int|
        0 <= i < j < transactions.len() ==> transactions[i].index <= transactions[j].index
}

/// Where a transaction with index `index` enters an ascending sequence:
/// behind the last transaction whose index is at most `index`.
pub open spec fn entry_point(sorted: Seq<MessageTransactionInfoView>, index: u64) -> int
    decreases sorted.len(),
{
    if sorted.len() == 0 || sorted.last().index <= index {
        sorted.len() as int
    } else {
        entry_point(sorted.drop_last(), index)
    }
}

/// The transactions in ascending order of index; transactions with the same
/// index keep the order in which they were collected.
pub open spec fn sorted_by_index(transactions: Seq<MessageTransactionInfoView>) -> Seq<
    MessageTransactionInfoView,
>
    decreases transactions.len(),
{
    if transactions.len() == 0 {
        Seq::empty()
    } else {
        let sorted = sorted_by_index(transactions.drop_last());
        let last = transactions.last();
        sorted.insert(entry_point(sorted, last.index), last)
    }
}

/// The entry point lies within the sequence, everything before it has an
/// index at most `index`, and, in an ascending sequence, everything from it
/// on has a greater index.
pub proof fn lemma_entry_point(sorted: Seq<MessageTransactionInfoView>, index: u64)
    ensures
        0 <= entry_point(sorted, index) <= sorted.len(),
        entry_point(sorted, index) > 0 ==> sorted[entry_point(sorted, index) - 1].index <= index,
        forall|i: int| entry_point(sorted, index) <= i < sorted.len() ==> sorted[i].index > index,
        ascending(sorted) ==> forall|i: int|
            0 <= i < entry_point(sorted, index) ==> sorted[i].index <= index,
    decreases sorted.len(),
{
    if sorted.len() == 0 || sorted.last().index <= index {
    } else {
        lemma_entry_point(sorted.drop_last(), index);
        assert(forall|i: int| 0 <= i < sorted.len() - 1 ==> sorted.drop_last()[i] == sorted[i]);
    }
}

/// Sorting keeps every transaction, as often as it was collected, and puts
/// them in ascending order of index.
pub proof fn lemma_sorted_by_index(transactions: Seq<MessageTransactionInfoView>)
    ensures
        sorted_by_index(transactions).len() == transactions.len(),
        sorted_by_index(transactions).to_multiset() == transactions.to_multiset(),
        ascending(sorted_by_index(transactions)),
    decreases transactions.len(),
{
    if transactions.len() == 0 {
        assert(sorted_by_index(transactions).to_multiset() =~= transactions.to_multiset()) by {
            assert(sorted_by_index(transactions) =~= transactions);
        }
    } else {
        let rest = transactions.drop_last();
        let last = transactions.last();
        let sorted = sorted_by_index(rest);
        let at = entry_point(sorted, last.index);
        lemma_sorted_by_index(rest);
        lemma_entry_point(sorted, last.index);
        let result = sorted.insert(at, last);
        assert(result.to_multiset() == transactions.to_multiset()) by {
            vstd::seq_lib::to_multiset_insert(sorted, at, last);
            vstd::seq_lib::to_multiset_build(rest, last);
            assert(transactions =~= rest.push(last));
        }
        assert(ascending(result)) by {
            assert forall|i: int, j: int| 0 <= i < j < result.len() implies result[i].index
                <= result[j].index by {
                if j < at {
                    assert(result[i] == sorted[i] && result[j] == sorted[j]);
                } else if j == at {
                    assert(result[i] == sorted[i]);
                } else if i < at {
                    assert(result[i] == sorted[i] && result[j] == sorted[j - 1]);
                } else if i == at {
                    assert(result[j] == sorted[j - 1]);
                } else {
                    assert(result[i] == sorted[i - 1] && result[j] == sorted[j - 1]);
                }
            }
        }
    }
}

/// An ascending sequence is already sorted: sorting leaves it as it is.
pub proof fn lemma_sorted_is_fixed(transactions: Seq<MessageTransactionInfoView>)
    requires
        ascending(transactions),
    ensures
        sorted_by_index(transactions) == transactions,
    decreases transactions.len(),
{
    if transactions.len() == 0 {
        assert(sorted_by_index(transactions) =~= transactions);
    } else {
        let rest = transactions.drop_last();
        let last = transactions.last();
        assert(ascending(rest)) by {
            assert forall|i: int, j: int| 0 <= i < j < rest.len() implies rest[i].index
                <= rest[j].index by {
                assert(rest[i] == transactions[i] && rest[j] == transactions[j]);
            }
        }
        lemma_sorted_is_fixed(rest);
        if rest.len() > 0 {
            assert(rest.last() == transactions[rest.len() - 1]);
        }
        assert(entry_point(rest, last.index) == rest.len());
        assert(rest.insert(rest.len() as int, last) =~= transactions);
    }
}

/// Sorts the transactions of a block by index, ascending. Transactions with
/// the same index keep their order.
pub fn sort_by_index(transactions: Vec<MessageTransactionInfo>) -> (sorted: Vec<
    MessageTransactionInfo,
>)
    ensures
        transaction_views(sorted@) == sorted_by_index(transaction_views(transactions@)),
{
    let ghost all = transaction_views(transactions@);
    let mut sorted: Vec<MessageTransactionInfo> = Vec::with_capacity(transactions.len());
    assert(transaction_views(sorted@) =~= sorted_by_index(all.take(0)));
    for transaction in it: transactions
        invariant
            it.seq() == transactions@,
            all == transaction_views(transactions@),
            transaction_views(sorted@) == sorted_by_index(all.take(it.index() as int)),
    {
        let ghost before = transaction_views(sorted@);
        let ghost done = it.index() as int;
        let mut at: usize = sorted.len();
        assert(before.take(at as int) =~= before);
        while at > 0 && sorted[at - 1].index > transaction.index
            invariant
                0 <= at <= sorted.len(),
                before == transaction_views(sorted@),
                entry_point(before, transaction.index) == entry_point(
                    before.take(at as int),
                    transaction.index,
                ),
            decreases at,
        {
            proof {
                let shorter = before.take(at as int);
                assert(shorter.last() == sorted@[at - 1]@);
                assert(shorter.drop_last() =~= before.take(at - 1));
            }
            at -= 1;
        }
        proof {
            let shorter = before.take(at as int);
            if at > 0 {
                assert(shorter.last() == sorted@[at - 1]@);
            }
            assert(entry_point(shorter, transaction.index) == at);
            assert(all.take(done + 1).drop_last() =~= all.take(done));
            assert(all.take(done + 1).last() == transaction@);
        }
        sorted.insert(at, transaction);
        assert(transaction_views(sorted@) =~= before.insert(at as int, transaction@));
    }
    assert(all.take(all.len() as int) =~= all);
    sorted
}

} // verus!
