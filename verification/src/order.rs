//! Ids in ascending order: the order in which workspaces and windows are
//! visited.

use std::collections::BTreeMap;
use vstd::prelude::*;
use vstd::std_specs::btree::increasing_seq;
use vstd::std_specs::cmp::OrdSpec;
use vstd::std_specs::iter::IteratorSpec;

verus! {

/// Whether each id of `ids` is smaller than all that follow it.
pub open spec fn is_ascending(ids: Seq<u64>) -> bool {
    forall|i: int, j: int| 0 <= i < j < ids.len() ==> ids[i] < ids[j]
}

/// The members of the finite set `ids`, smallest first.
pub open spec fn ascending(ids: Set<u64>) -> Seq<u64> {
    choose|s: Seq<u64>| is_ascending(s) && s.to_set() == ids
}

/// Two ascending sequences with the same members are the same sequence.
pub proof fn lemma_ascending_unique(a: Seq<u64>, b: Seq<u64>)
    requires
        is_ascending(a),
        is_ascending(b),
        a.to_set() == b.to_set(),
    ensures
        a == b,
    decreases a.len(),
{
    if a.len() == 0 {
        if b.len() > 0 {
            assert(b.to_set().contains(b[0]));
            assert(a.contains(b[0]));
        }
        assert(a =~= b);
    } else {
        let top = a.last();
        assert(a.to_set().contains(top));
        assert(b.contains(top));
        assert(b.to_set().contains(b.last()));
        assert(a.contains(b.last()));
        assert(b.last() == top);
        let a0 = a.drop_last();
        let b0 = b.drop_last();
        assert forall|x: u64| a0.to_set().contains(x) <==> b0.to_set().contains(x) by {
            if a0.contains(x) {
                let i = choose|i: int| 0 <= i < a0.len() && a0[i] == x;
                assert(a[i] == x);
                assert(a.to_set().contains(x));
                assert(b.contains(x));
                let j = choose|j: int| 0 <= j < b.len() && b[j] == x;
                assert(b0[j] == x);
            }
            if b0.contains(x) {
                let j = choose|j: int| 0 <= j < b0.len() && b0[j] == x;
                assert(b[j] == x);
                assert(b.to_set().contains(x));
                assert(a.contains(x));
                let i = choose|i: int| 0 <= i < a.len() && a[i] == x;
                assert(a0[i] == x);
            }
        }
        assert(a0.to_set() =~= b0.to_set());
        lemma_ascending_unique(a0, b0);
        assert(a =~= a0.push(top));
        assert(b =~= b0.push(top));
    }
}

/// An ascending sequence is the ascending order of its own members.
pub proof fn lemma_ascending_is(ids: Seq<u64>)
    requires
        is_ascending(ids),
    ensures
        ascending(ids.to_set()) == ids,
{
    lemma_ascending_unique(ascending(ids.to_set()), ids);
}

/// An ascending sequence can take in one more id and stay ascending.
proof fn lemma_ascending_with(ids: Seq<u64>, id: u64) -> (with: Seq<u64>)
    requires
        is_ascending(ids),
        !ids.contains(id),
    ensures
        is_ascending(with),
        with.to_set() == ids.to_set().insert(id),
        with.len() == ids.len() + 1,
    decreases ids.len(),
{
    if ids.len() == 0 || ids.last() < id {
        let with = ids.push(id);
        assert forall|x: u64| with.to_set().contains(x) <==> ids.to_set().insert(id).contains(
            x,
        ) by {
            if with.contains(x) {
                let i = choose|i: int| 0 <= i < with.len() && with[i] == x;
                if i < ids.len() {
                    assert(ids[i] == x);
                }
            }
            if ids.contains(x) {
                let i = choose|i: int| 0 <= i < ids.len() && ids[i] == x;
                assert(with[i] == x);
            }
            if x == id {
                assert(with[ids.len() as int] == x);
            }
        }
        assert(with.to_set() =~= ids.to_set().insert(id));
        with
    } else {
        let top = ids.last();
        let below = ids.drop_last();
        assert(ids.contains(top));
        assert(top != id);
        assert forall|x: u64| below.contains(x) implies ids.contains(x) && x < top by {
            let i = choose|i: int| 0 <= i < below.len() && below[i] == x;
            assert(ids[i] == x);
        }
        let inner = lemma_ascending_with(below, id);
        let with = inner.push(top);
        assert forall|i: int, j: int| 0 <= i < j < with.len() implies with[i] < with[j] by {
            if j == inner.len() {
                assert(inner.to_set().contains(inner[i]));
                assert(inner[i] == id || below.contains(inner[i]));
            }
        }
        assert forall|x: u64| with.to_set().contains(x) <==> ids.to_set().insert(id).contains(
            x,
        ) by {
            if with.contains(x) {
                let i = choose|i: int| 0 <= i < with.len() && with[i] == x;
                if i < inner.len() {
                    assert(inner.to_set().contains(inner[i]));
                    assert(x == id || below.contains(x));
                }
            }
            if ids.contains(x) {
                let i = choose|i: int| 0 <= i < ids.len() && ids[i] == x;
                if i < below.len() {
                    assert(below[i] == x);
                    assert(below.to_set().insert(id).contains(x));
                    assert(inner.contains(x));
                    let j = choose|j: int| 0 <= j < inner.len() && inner[j] == x;
                    assert(with[j] == x);
                } else {
                    assert(with[inner.len() as int] == x);
                }
            }
            if x == id {
                assert(below.to_set().insert(id).contains(x));
                assert(inner.contains(x));
                let j = choose|j: int| 0 <= j < inner.len() && inner[j] == x;
                assert(with[j] == x);
            }
        }
        assert(with.to_set() =~= ids.to_set().insert(id));
        with
    }
}

/// The ascending order of a finite set holds each member once, smallest
/// first, and nothing else.
pub proof fn lemma_ascending(ids: Set<u64>)
    requires
        ids.finite(),
    ensures
        is_ascending(ascending(ids)),
        ascending(ids).to_set() == ids,
        ascending(ids).len() == ids.len(),
        ascending(ids).no_duplicates(),
    decreases ids.len(),
{
    if ids.len() == 0 {
        let none = Seq::<u64>::empty();
        assert(ids =~= Set::empty());
        assert(none.to_set() =~= ids);
        lemma_ascending_is(none);
    } else {
        let id = ids.choose();
        let rest = ids.remove(id);
        lemma_ascending(rest);
        let with = lemma_ascending_with(ascending(rest), id);
        assert(with.to_set() =~= ids);
        lemma_ascending_is(with);
    }
}

/// The keys of `map`, smallest first.
pub fn ascending_keys<V>(map: &BTreeMap<u64, V>) -> (keys: Vec<u64>)
    ensures
        keys@ == ascending(map@.dom()),
        is_ascending(keys@),
        keys@.to_set() == map@.dom(),
        keys@.len() == map@.dom().len(),
{
    broadcast use vstd::laws_cmp::group_laws_cmp;

    let mut keys: Vec<u64> = Vec::new();
    for entry in walk: map.iter()
        invariant
            keys@.len() == walk.index(),
            walk.seq() == map.iter().remaining(),
            increasing_seq(walk.seq().map_values(|e: (&u64, &V)| *e.0)),
            forall|j: int| 0 <= j < keys@.len() ==> keys@[j] == *walk.seq()[j].0,
    {
        keys.push(*entry.0);
    }
    proof {
        let entries = map.iter().remaining();
        let ids = entries.map_values(|e: (&u64, &V)| *e.0);
        assert(keys@ =~= ids);
        vstd::std_specs::btree::axiom_increasing_seq_meaning::<u64>(ids);
        assert forall|i: int, j: int| 0 <= i < j < keys@.len() implies keys@[i] < keys@[j] by {
            assert(ids[i].cmp_spec(&ids[j]) is Less);
        }
        vstd::std_specs::btree::axiom_spec_btree_map_iter(map);
        assert forall|k: u64| map@.dom().contains(k) implies keys@.to_set().contains(k) by {
            assert(entries.contains((&k, &map@[k])));
            let i = choose|i: int| 0 <= i < entries.len() && entries[i] == (&k, &map@[k]);
            assert(keys@[i] == k);
        }
        assert(keys@.to_set() =~= map@.dom());
        lemma_ascending_is(keys@);
    }
    keys
}

} // verus!
