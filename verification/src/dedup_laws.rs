//! Which messages of a slot are left after deduplication.
//!
//! Messages are entered one by one, and an account update can push out the
//! update that was held for its account. The laws here say what is held in
//! the end in terms of everything that arrived: a message is held exactly if
//! it survives, and the messages that are held stand in the order in which
//! they arrived.

use vstd::prelude::*;
use crate::message::MessageView;
use crate::slot_messages::{
    account_position, dedup_insert, distinct_accounts, holds_account, is_account_of,
    write_version_of,
};

verus! {

/// What is held after the arrivals have been entered one by one, starting
/// from what is already held.
pub open spec fn insert_all(held: Seq<MessageView>, arrivals: Seq<MessageView>) -> Seq<MessageView>
    decreases arrivals.len(),
{
    if arrivals.len() == 0 {
        held
    } else {
        dedup_insert(insert_all(held, arrivals.drop_last()), arrivals.last())
    }
}

/// What is held after the arrivals have been entered one by one, starting
/// from nothing.
pub open spec fn deduplicated(arrivals: Seq<MessageView>) -> Seq<MessageView> {
    insert_all(Seq::empty(), arrivals)
}

/// Both messages are updates of the same account.
pub open spec fn same_account(a: MessageView, b: MessageView) -> bool {
    a is Account && b is Account && a->Account_0.account.pubkey == b->Account_0.account.pubkey
}

/// The arrival at `at` survives: it is no account update, or no update of
/// the same account that arrived earlier has a write version at least as
/// great, and none that arrived later has a greater one.
pub open spec fn survives(arrivals: Seq<MessageView>, at: int) -> bool {
    forall|other: int|
        0 <= other < arrivals.len() && same_account(#[trigger] arrivals[other], arrivals[at]) ==> {
            &&& other < at ==> write_version_of(arrivals[other]) < write_version_of(arrivals[at])
            &&& other > at ==> write_version_of(arrivals[other]) <= write_version_of(arrivals[at])
        }
}

/// Those of the first `upto` arrivals that survive, in the order in which
/// they arrived.
pub open spec fn survivors(arrivals: Seq<MessageView>, upto: int) -> Seq<MessageView>
    decreases upto,
{
    if upto <= 0 {
        Seq::empty()
    } else {
        let before = survivors(arrivals, upto - 1);
        if survives(arrivals, upto - 1) {
            before.push(arrivals[upto - 1])
        } else {
            before
        }
    }
}

/// The messages that are no account updates, in order.
pub open spec fn other_messages(messages: Seq<MessageView>) -> Seq<MessageView> {
    messages.filter(|message: MessageView| !(message is Account))
}

/// `origins` says for each held message which arrival it is: the held
/// messages are exactly the arrivals that survive, in the order in which
/// they arrived.
spec fn tracks(arrivals: Seq<MessageView>, held: Seq<MessageView>, origins: Seq<int>) -> bool {
    &&& origins.len() == held.len()
    &&& forall|k: int|
        0 <= k < origins.len() ==> {
            &&& 0 <= #[trigger] origins[k] < arrivals.len()
            &&& held[k] == arrivals[origins[k]]
            &&& survives(arrivals, origins[k])
        }
    &&& forall|k1: int, k2: int|
        0 <= k1 < k2 < origins.len() ==> #[trigger] origins[k1] < #[trigger] origins[k2]
    &&& forall|at: int|
        0 <= at < arrivals.len() && #[trigger] survives(arrivals, at) ==> origins.contains(at)
}

/// The first update of `key` with the greatest write version among the
/// first `upto` arrivals, or -1 if there is none.
spec fn first_best(arrivals: Seq<MessageView>, key: MessageView, upto: int) -> int
    decreases upto,
{
    if upto <= 0 {
        -1
    } else {
        let before = first_best(arrivals, key, upto - 1);
        if same_account(arrivals[upto - 1], key) && (before < 0 || write_version_of(
            arrivals[upto - 1],
        ) > write_version_of(arrivals[before])) {
            upto - 1
        } else {
            before
        }
    }
}

proof fn lemma_first_best(arrivals: Seq<MessageView>, key: MessageView, upto: int)
    requires
        0 <= upto <= arrivals.len(),
    ensures
        -1 <= first_best(arrivals, key, upto) < upto,
        first_best(arrivals, key, upto) < 0 ==> forall|j: int|
            0 <= j < upto ==> !same_account(#[trigger] arrivals[j], key),
        first_best(arrivals, key, upto) >= 0 ==> {
            let best = first_best(arrivals, key, upto);
            &&& same_account(arrivals[best], key)
            &&& forall|j: int|
                0 <= j < upto && same_account(#[trigger] arrivals[j], key) ==> {
                    &&& j < best ==> write_version_of(arrivals[j]) < write_version_of(
                        arrivals[best],
                    )
                    &&& j > best ==> write_version_of(arrivals[j]) <= write_version_of(
                        arrivals[best],
                    )
                }
        },
    decreases upto,
{
    if upto > 0 {
        lemma_first_best(arrivals, key, upto - 1);
    }
}

/// Where some update of an account has arrived, one of them survives.
proof fn lemma_some_update_survives(arrivals: Seq<MessageView>, key: MessageView)
    requires
        key is Account,
        exists|j: int| 0 <= j < arrivals.len() && same_account(#[trigger] arrivals[j], key),
    ensures
        exists|at: int|
            0 <= at < arrivals.len() && same_account(#[trigger] arrivals[at], key) && survives(
                arrivals,
                at,
            ),
{
    lemma_first_best(arrivals, key, arrivals.len() as int);
    let best = first_best(arrivals, key, arrivals.len() as int);
    assert(best >= 0);
    assert(survives(arrivals, best)) by {
        assert forall|other: int|
            0 <= other < arrivals.len() && same_account(
                #[trigger] arrivals[other],
                arrivals[best],
            ) implies {
            &&& other < best ==> write_version_of(arrivals[other]) < write_version_of(
                arrivals[best],
            )
            &&& other > best ==> write_version_of(arrivals[other]) <= write_version_of(
                arrivals[best],
            )
        } by {
            assert(same_account(arrivals[other], key));
        }
    }
    assert(same_account(arrivals[best], key) && survives(arrivals, best));
}

/// Of the updates of one account at most one survives.
proof fn lemma_one_survivor(arrivals: Seq<MessageView>, a: int, b: int)
    requires
        0 <= a < arrivals.len(),
        0 <= b < arrivals.len(),
        same_account(arrivals[a], arrivals[b]),
        survives(arrivals, a),
        survives(arrivals, b),
    ensures
        a == b,
{
    if a < b {
        assert(same_account(arrivals[b], arrivals[a]));
        assert(same_account(arrivals[a], arrivals[b]));
    } else if b < a {
        assert(same_account(arrivals[b], arrivals[a]));
        assert(same_account(arrivals[a], arrivals[b]));
    }
}

/// How a new arrival changes which of the earlier arrivals survive: an
/// earlier arrival goes on surviving unless the new arrival is an update of
/// the same account with a greater write version, and none comes back.
proof fn lemma_survives_after_arrival(arrivals: Seq<MessageView>, message: MessageView, at: int)
    requires
        0 <= at < arrivals.len(),
    ensures
        survives(arrivals.push(message), at) <==> survives(arrivals, at) && !(same_account(
            message,
            arrivals[at],
        ) && write_version_of(message) > write_version_of(arrivals[at])),
{
    let after = arrivals.push(message);
    assert(after[at] == arrivals[at]);
    if survives(after, at) {
        assert forall|other: int|
            0 <= other < arrivals.len() && same_account(
                #[trigger] arrivals[other],
                arrivals[at],
            ) implies {
            &&& other < at ==> write_version_of(arrivals[other]) < write_version_of(arrivals[at])
            &&& other > at ==> write_version_of(arrivals[other]) <= write_version_of(
                arrivals[at],
            )
        } by {
            assert(after[other] == arrivals[other]);
        }
        if same_account(message, arrivals[at]) {
            assert(after[arrivals.len() as int] == message);
        }
    }
    if survives(arrivals, at) && !(same_account(message, arrivals[at]) && write_version_of(message)
        > write_version_of(arrivals[at])) {
        assert forall|other: int|
            0 <= other < after.len() && same_account(#[trigger] after[other], after[at]) implies {
            &&& other < at ==> write_version_of(after[other]) < write_version_of(after[at])
            &&& other > at ==> write_version_of(after[other]) <= write_version_of(after[at])
        } by {
            if other < arrivals.len() {
                assert(after[other] == arrivals[other]);
            }
        }
    }
}

/// The new arrival survives exactly if no earlier update of its account has
/// a write version at least as great.
proof fn lemma_arrival_survives(arrivals: Seq<MessageView>, message: MessageView)
    ensures
        survives(arrivals.push(message), arrivals.len() as int) <==> forall|j: int|
            0 <= j < arrivals.len() && same_account(#[trigger] arrivals[j], message)
                ==> write_version_of(arrivals[j]) < write_version_of(message),
{
    let after = arrivals.push(message);
    let last = arrivals.len() as int;
    assert(after[last] == message);
    if survives(after, last) {
        assert forall|j: int|
            0 <= j < arrivals.len() && same_account(
                #[trigger] arrivals[j],
                message,
            ) implies write_version_of(arrivals[j]) < write_version_of(message) by {
            assert(after[j] == arrivals[j]);
        }
    }
    if forall|j: int|
        0 <= j < arrivals.len() && same_account(#[trigger] arrivals[j], message)
            ==> write_version_of(arrivals[j]) < write_version_of(message) {
        assert forall|other: int|
            0 <= other < after.len() && same_account(#[trigger] after[other], after[last]) implies {
            &&& other < last ==> write_version_of(after[other]) < write_version_of(after[last])
            &&& other > last ==> write_version_of(after[other]) <= write_version_of(after[last])
        } by {
            if other < last {
                assert(after[other] == arrivals[other]);
            }
        }
    }
}

/// Entering one more arrival keeps the held messages in step with the
/// survivors.
proof fn lemma_track_arrival(
    arrivals: Seq<MessageView>,
    held: Seq<MessageView>,
    origins: Seq<int>,
    message: MessageView,
) -> (moved: Seq<int>)
    requires
        tracks(arrivals, held, origins),
    ensures
        tracks(arrivals.push(message), dedup_insert(held, message), moved),
{
    let after = arrivals.push(message);
    let last = arrivals.len() as int;
    let entered = dedup_insert(held, message);
    assert forall|at: int| 0 <= at < arrivals.len() implies (survives(after, at) <==> survives(
        arrivals,
        at,
    ) && !(same_account(message, arrivals[at]) && write_version_of(message) > write_version_of(
        arrivals[at],
    ))) by {
        lemma_survives_after_arrival(arrivals, message, at);
    }
    lemma_arrival_survives(arrivals, message);
    assert forall|at: int| 0 <= at < arrivals.len() implies after[at] == arrivals[at] by {}
    if message is Account && holds_account(held, message->Account_0.account.pubkey) {
        let key = message->Account_0.account.pubkey;
        let place = account_position(held, key);
        let origin = origins[place];
        assert(is_account_of(held[place], key));
        assert(same_account(arrivals[origin], message));
        // No other arrival of the account survives.
        assert forall|at: int|
            0 <= at < arrivals.len() && same_account(arrivals[at], message) && survives(
                arrivals,
                at,
            ) implies at == origin by {
            lemma_one_survivor(arrivals, at, origin);
        }
        // Every arrival of the account is at most as new as the one held.
        assert forall|j: int|
            0 <= j < arrivals.len() && same_account(
                #[trigger] arrivals[j],
                message,
            ) implies write_version_of(arrivals[j]) <= write_version_of(arrivals[origin]) by {
            assert(same_account(arrivals[j], arrivals[origin]));
        }
        if write_version_of(held[place]) < message->Account_0.account.write_version {
            let moved = origins.remove(place).push(last);
            assert(entered == held.remove(place).push(message));
            assert forall|k: int| 0 <= k < moved.len() implies {
                &&& 0 <= #[trigger] moved[k] < after.len()
                &&& entered[k] == after[moved[k]]
                &&& survives(after, moved[k])
            } by {
                if k < moved.len() - 1 {
                    let from = if k < place {
                        k
                    } else {
                        k + 1
                    };
                    assert(moved[k] == origins[from]);
                    assert(entered[k] == held[from]);
                    assert(origins[from] != origin);
                    if same_account(arrivals[origins[from]], message) {
                        lemma_one_survivor(arrivals, origins[from], origin);
                    }
                } else {
                    assert(after[last] == message);
                }
            }
            assert forall|k1: int, k2: int| 0 <= k1 < k2 < moved.len() implies #[trigger] moved[k1]
                < #[trigger] moved[k2] by {
                let f1 = if k1 < place {
                    k1
                } else {
                    k1 + 1
                };
                assert(moved[k1] == origins[f1]);
                if k2 < moved.len() - 1 {
                    let f2 = if k2 < place {
                        k2
                    } else {
                        k2 + 1
                    };
                    assert(moved[k2] == origins[f2]);
                }
            }
            assert forall|at: int|
                0 <= at < after.len() && #[trigger] survives(after, at) implies moved.contains(
                at,
            ) by {
                if at < last {
                    assert(survives(arrivals, at));
                    assert(origins.contains(at));
                    let k = choose|k: int| 0 <= k < origins.len() && origins[k] == at;
                    assert(k != place);
                    let to = if k < place {
                        k
                    } else {
                        k - 1
                    };
                    assert(moved[to] == at);
                } else {
                    assert(moved[moved.len() - 1] == at);
                }
            }
            moved
        } else {
            assert(entered == held);
            assert(!survives(after, last)) by {
                assert(same_account(arrivals[origin], message));
            }
            assert forall|k: int| 0 <= k < origins.len() implies survives(
                after,
                #[trigger] origins[k],
            ) by {
                if same_account(message, arrivals[origins[k]]) {
                    lemma_one_survivor(arrivals, origins[k], origin);
                }
            }
            origins
        }
    } else {
        let moved = origins.push(last);
        assert(entered == held.push(message));
        if message is Account {
            let key = message->Account_0.account.pubkey;
            // No update of the account has arrived before.
            assert forall|j: int| 0 <= j < arrivals.len() implies !same_account(
                #[trigger] arrivals[j],
                message,
            ) by {
                if same_account(arrivals[j], message) {
                    lemma_some_update_survives(arrivals, message);
                    let at = choose|at: int|
                        0 <= at < arrivals.len() && same_account(#[trigger] arrivals[at], message)
                            && survives(arrivals, at);
                    assert(origins.contains(at));
                    let k = choose|k: int| 0 <= k < origins.len() && origins[k] == at;
                    assert(is_account_of(held[k], key));
                }
            }
        }
        assert forall|k: int| 0 <= k < moved.len() implies {
            &&& 0 <= #[trigger] moved[k] < after.len()
            &&& entered[k] == after[moved[k]]
            &&& survives(after, moved[k])
        } by {
            if k < origins.len() {
                assert(moved[k] == origins[k]);
            } else {
                assert(after[last] == message);
            }
        }
        assert forall|k1: int, k2: int| 0 <= k1 < k2 < moved.len() implies #[trigger] moved[k1]
            < #[trigger] moved[k2] by {
            assert(moved[k1] == origins[k1]);
            if k2 < origins.len() {
                assert(moved[k2] == origins[k2]);
            }
        }
        assert forall|at: int|
            0 <= at < after.len() && #[trigger] survives(after, at) implies moved.contains(at) by {
            if at < last {
                assert(origins.contains(at));
                let k = choose|k: int| 0 <= k < origins.len() && origins[k] == at;
                assert(moved[k] == at);
            } else {
                assert(moved[origins.len() as int] == at);
            }
        }
        moved
    }
}

/// Messages that are exactly the surviving ones among the first `upto`
/// arrivals, in the order of arrival, are the survivors.
proof fn lemma_tracked_are_survivors(
    arrivals: Seq<MessageView>,
    held: Seq<MessageView>,
    origins: Seq<int>,
    upto: int,
)
    requires
        0 <= upto <= arrivals.len(),
        origins.len() == held.len(),
        forall|k: int|
            0 <= k < origins.len() ==> (#[trigger] origins[k]) >= 0 && origins[k] < upto && held[k]
                == arrivals[origins[k]] && survives(arrivals, origins[k]),
        forall|k1: int, k2: int|
            0 <= k1 < k2 < origins.len() ==> #[trigger] origins[k1] < #[trigger] origins[k2],
        forall|at: int| 0 <= at < upto && #[trigger] survives(arrivals, at) ==> origins.contains(at),
    ensures
        held == survivors(arrivals, upto),
    decreases upto,
{
    if upto == 0 {
        if origins.len() > 0 {
            assert(origins[0] < upto);
            assert(origins[0] >= 0);
            assert(false);
        }
        assert(held =~= survivors(arrivals, upto));
    } else if survives(arrivals, upto - 1) {
        assert(origins.contains(upto - 1));
        let k = choose|k: int| 0 <= k < origins.len() && origins[k] == upto - 1;
        if k < origins.len() - 1 {
            assert(origins[k] < origins[origins.len() - 1]);
        }
        let fewer = origins.drop_last();
        let rest = held.drop_last();
        assert forall|j: int| 0 <= j < fewer.len() implies (#[trigger] fewer[j]) >= 0 && fewer[j]
            < upto - 1 && rest[j] == arrivals[fewer[j]] && survives(arrivals, fewer[j]) by {
            assert(fewer[j] == origins[j]);
            assert(origins[j] < origins[origins.len() - 1]);
        }
        assert forall|k1: int, k2: int| 0 <= k1 < k2 < fewer.len() implies #[trigger] fewer[k1]
            < #[trigger] fewer[k2] by {
            assert(fewer[k1] == origins[k1] && fewer[k2] == origins[k2]);
        }
        assert forall|at: int|
            0 <= at < upto - 1 && #[trigger] survives(arrivals, at) implies fewer.contains(at) by {
            assert(origins.contains(at));
            let j = choose|j: int| 0 <= j < origins.len() && origins[j] == at;
            assert(j != k);
            assert(fewer[j] == at);
        }
        lemma_tracked_are_survivors(arrivals, rest, fewer, upto - 1);
        assert(held =~= rest.push(arrivals[upto - 1]));
    } else {
        assert forall|at: int|
            0 <= at < upto - 1 && #[trigger] survives(arrivals, at) implies origins.contains(
            at,
        ) by {}
        lemma_tracked_are_survivors(arrivals, held, origins, upto - 1);
    }
}

proof fn lemma_dedup_tracks(arrivals: Seq<MessageView>) -> (origins: Seq<int>)
    ensures
        tracks(arrivals, deduplicated(arrivals), origins),
    decreases arrivals.len(),
{
    if arrivals.len() == 0 {
        Seq::empty()
    } else {
        let before = lemma_dedup_tracks(arrivals.drop_last());
        assert(arrivals.drop_last().push(arrivals.last()) =~= arrivals);
        lemma_track_arrival(
            arrivals.drop_last(),
            deduplicated(arrivals.drop_last()),
            before,
            arrivals.last(),
        )
    }
}

/// After the messages of a slot have been entered one by one, exactly the
/// arrivals that survive are held, in the order in which they arrived.
///
/// So of two updates of one account the one with the greater write version
/// is left, of two with the same write version the one that came first, and
/// a message that is no account update is always left.
pub proof fn lemma_deduplicated_are_survivors(arrivals: Seq<MessageView>)
    ensures
        deduplicated(arrivals) == survivors(arrivals, arrivals.len() as int),
{
    let origins = lemma_dedup_tracks(arrivals);
    lemma_tracked_are_survivors(
        arrivals,
        deduplicated(arrivals),
        origins,
        arrivals.len() as int,
    );
}

/// Of two updates of one account only one can survive: the earlier one if
/// its write version is at least as great as that of the later one, else the
/// later one.
pub proof fn lemma_greater_write_version_wins(
    arrivals: Seq<MessageView>,
    earlier: int,
    later: int,
)
    requires
        0 <= earlier < later < arrivals.len(),
        same_account(arrivals[earlier], arrivals[later]),
    ensures
        write_version_of(arrivals[earlier]) >= write_version_of(arrivals[later]) ==> !survives(
            arrivals,
            later,
        ),
        write_version_of(arrivals[earlier]) < write_version_of(arrivals[later]) ==> !survives(
            arrivals,
            earlier,
        ),
        !(survives(arrivals, earlier) && survives(arrivals, later)),
{
    assert(same_account(arrivals[later], arrivals[earlier]));
}

/// Entering a message never leaves two updates of one account behind.
pub proof fn lemma_insert_keeps_distinct(held: Seq<MessageView>, message: MessageView)
    requires
        distinct_accounts(held),
    ensures
        distinct_accounts(dedup_insert(held, message)),
{
    let entered = dedup_insert(held, message);
    if entered == held {
    } else if message is Account && holds_account(held, message->Account_0.account.pubkey) {
        let key = message->Account_0.account.pubkey;
        let place = account_position(held, key);
        let shorter = held.remove(place);
        assert forall|i: int, j: int|
            0 <= i < j < entered.len() && entered[i] is Account && entered[j] is Account
                implies entered[i]->Account_0.account.pubkey
            != entered[j]->Account_0.account.pubkey by {
            let fi = if i < place {
                i
            } else {
                i + 1
            };
            assert(entered[i] == held[fi]);
            if j < shorter.len() {
                let fj = if j < place {
                    j
                } else {
                    j + 1
                };
                assert(entered[j] == held[fj]);
            } else {
                if fi < place {
                    assert(held[fi] is Account && held[place] is Account);
                } else {
                    assert(held[fi] is Account && held[place] is Account);
                }
            }
        }
    } else {
        assert forall|i: int, j: int|
            0 <= i < j < entered.len() && entered[i] is Account && entered[j] is Account
                implies entered[i]->Account_0.account.pubkey
            != entered[j]->Account_0.account.pubkey by {
            assert(entered[i] == held[i]);
            if j < held.len() {
                assert(entered[j] == held[j]);
            } else if message is Account {
                if entered[i]->Account_0.account.pubkey == message->Account_0.account.pubkey {
                    assert(is_account_of(held[i], message->Account_0.account.pubkey));
                }
            }
        }
    }
}

/// However many messages are entered, no two updates of one account are
/// left behind.
pub proof fn lemma_insert_all_keeps_distinct(held: Seq<MessageView>, arrivals: Seq<MessageView>)
    requires
        distinct_accounts(held),
    ensures
        distinct_accounts(insert_all(held, arrivals)),
    decreases arrivals.len(),
{
    if arrivals.len() > 0 {
        lemma_insert_all_keeps_distinct(held, arrivals.drop_last());
        lemma_insert_keeps_distinct(insert_all(held, arrivals.drop_last()), arrivals.last());
    }
}

} // verus!
