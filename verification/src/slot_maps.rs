//! Walking and trimming maps that are keyed by slot.

use vstd::prelude::*;
use std::collections::BTreeMap;
use std::collections::HashMap;
use vstd::std_specs::cmp::OrdSpec;
use vstd::std_specs::iter::IteratorSpec;

verus! {

/// The slots from `bound` on.
pub open spec fn keys_from(bound: u64) -> Set<u64> {
    Set::new(|slot: u64| slot >= bound)
}

/// The smallest slot that `map` holds an entry for.
pub fn first_slot<V>(map: &BTreeMap<u64, V>) -> (first: Option<u64>)
    ensures
        match first {
            Some(slot) => map@.contains_key(slot) && forall|other: u64|
                map@.contains_key(other) ==> slot <= other,
            None => map@ == Map::<u64, V>::empty(),
        },
{
    broadcast use {vstd::laws_cmp::group_laws_cmp, vstd::laws_cmp::lemma_ref_obeys_cmp_spec};

    for slot in it: map.keys()
        invariant
            it.index() == 0,
            it.seq().unref().to_set() == map@.dom(),
            vstd::std_specs::btree::increasing_seq(it.seq()),
    {
        proof {
            let keys = it.seq();
            assert(keys.unref()[0] == *slot);
            assert(keys.unref().to_set().contains(*slot));
            assert forall|other: u64| map@.contains_key(other) implies *slot <= other by {
                assert(keys.unref().to_set().contains(other));
                let at = choose|at: int| 0 <= at < keys.unref().len() && keys.unref()[at] == other;
                assert(*keys[at] == other);
                if at > 0 {
                    assert(OrdSpec::cmp_spec(&keys[0], &keys[at]) is Less);
                }
            }
        }
        return Some(*slot);
    }
    proof {
        assert(map@.dom() =~= Set::<u64>::empty()) by {
            assert forall|slot: u64| !map@.dom().contains(slot) by {
                if map@.dom().contains(slot) {
                    let keys = map.keys().remaining();
                    assert(keys.unref().to_set().contains(slot));
                }
            }
        }
        assert(map@ =~= Map::<u64, V>::empty());
    }
    None
}

/// Drops every entry of `map` whose slot is below `bound`.
pub fn retain_from<V>(map: &mut HashMap<u64, V>, bound: u64)
    ensures
        final(map)@ == old(map)@.restrict(keys_from(bound)),
{
    let mut doomed: Vec<u64> = Vec::new();
    for slot in it: map.keys()
        invariant
            it.seq().unref().to_set() == map@.dom(),
            forall|i: int| 0 <= i < doomed@.len() ==> doomed@[i] < bound,
            forall|i: int|
                0 <= i < it.index() && *it.seq()[i] < bound ==> doomed@.contains(*it.seq()[i]),
    {
        if *slot < bound {
            let ghost before = doomed@;
            doomed.push(*slot);
            proof {
                assert(doomed@[before.len() as int] == *slot);
                assert forall|i: int|
                    0 <= i < it.index() + 1 && *it.seq()[i] < bound implies doomed@.contains(
                    *it.seq()[i],
                ) by {
                    if i < it.index() {
                        let at = choose|at: int|
                            0 <= at < before.len() && before[at] == *it.seq()[i];
                        assert(doomed@[at] == *it.seq()[i]);
                    }
                }
            }
        }
    }
    proof {
        assert forall|slot: u64| map@.contains_key(slot) && slot < bound implies doomed@.contains(
            slot,
        ) by {
            let keys = map.keys().remaining();
            assert(keys.unref().to_set().contains(slot));
            let at = choose|at: int| 0 <= at < keys.unref().len() && keys.unref()[at] == slot;
            assert(*keys[at] == slot);
        }
    }
    let mut i: usize = 0;
    while i < doomed.len()
        invariant
            0 <= i <= doomed.len(),
            forall|j: int| 0 <= j < doomed@.len() ==> doomed@[j] < bound,
            forall|slot: u64|
                old(map)@.contains_key(slot) && slot < bound ==> doomed@.contains(slot),
            forall|slot: u64|
                #![trigger map@.contains_key(slot)]
                map@.contains_key(slot) <==> old(map)@.contains_key(slot) && !(exists|j: int|
                    0 <= j < i && doomed@[j] == slot),
            forall|slot: u64| map@.contains_key(slot) ==> map@[slot] == old(map)@[slot],
        decreases doomed.len() - i,
    {
        let ghost prior = map@;
        map.remove(&doomed[i]);
        proof {
            assert(map@ == prior.remove(doomed@[i as int]));
            assert forall|slot: u64| #![trigger map@.contains_key(slot)]
                map@.contains_key(slot) <==> old(map)@.contains_key(slot) && !(exists|j: int|
                    0 <= j < i + 1 && doomed@[j] == slot) by {
                if map@.contains_key(slot) {
                    assert(prior.contains_key(slot));
                    if exists|j: int| 0 <= j < i + 1 && doomed@[j] == slot {
                        let j = choose|j: int| 0 <= j < i + 1 && doomed@[j] == slot;
                        assert(j < i);
                    }
                } else if old(map)@.contains_key(slot) {
                    if prior.contains_key(slot) {
                        assert(doomed@[i as int] == slot);
                    } else {
                        let j = choose|j: int| 0 <= j < i && doomed@[j] == slot;
                        assert(0 <= j < i + 1 && doomed@[j] == slot);
                    }
                }
            }
        }
        i += 1;
    }
    proof {
        let kept = old(map)@.restrict(keys_from(bound));
        assert forall|slot: u64| map@.contains_key(slot) <==> kept.contains_key(slot) by {
            if map@.contains_key(slot) {
                if slot < bound {
                    let j = choose|j: int| 0 <= j < doomed@.len() && doomed@[j] == slot;
                    assert(0 <= j < i && doomed@[j] == slot);
                }
            }
            if kept.contains_key(slot) {
                if exists|j: int| 0 <= j < i && doomed@[j] == slot {
                    let j = choose|j: int| 0 <= j < i && doomed@[j] == slot;
                    assert(doomed@[j] < bound);
                }
            }
        }
        assert(map@ =~= kept);
    }
}

} // verus!
