//! Going through a hash map.
use std::collections::HashMap;
use vstd::prelude::*;
use vstd::std_specs::iter::IteratorSpec;

verus! {

/// Whether `order` goes through the entries of a map, each of them once.
pub open spec fn lists<V>(order: Seq<(u128, V)>, m: Map<u128, V>) -> bool {
    &&& forall|i: int, j: int|
        0 <= i < j < order.len() ==> (#[trigger] order[i]).0 != (#[trigger] order[j]).0
    &&& forall|i: int|
        0 <= i < order.len() ==> m.contains_key((#[trigger] order[i]).0) && m[order[i].0]
            == order[i].1
    &&& forall|k: u128| #[trigger]
        m.contains_key(k) ==> exists|i: int| 0 <= i < order.len() && (#[trigger] order[i]).0 == k
}

/// The entries that references stand for.
pub open spec fn entries<V>(order: Seq<(u128, &V)>) -> Seq<(u128, V)> {
    order.map_values(|e: (u128, &V)| (e.0, *e.1))
}

/// A map after entries were inserted into it one by one.
pub open spec fn inserted<V>(m: Map<u128, V>, order: Seq<(u128, V)>) -> Map<u128, V>
    decreases order.len(),
{
    if order.len() == 0 {
        m
    } else {
        inserted(m, order.drop_last()).insert(order.last().0, order.last().1)
    }
}

/// Entries with other values in the same order.
pub open spec fn with_values<V, W>(order: Seq<(u128, V)>, f: spec_fn(V) -> W) -> Seq<(u128, W)> {
    order.map_values(|e: (u128, V)| (e.0, f(e.1)))
}

/// What inserting entries does to each key.
proof fn lemma_inserted<V>(m: Map<u128, V>, order: Seq<(u128, V)>)
    requires
        forall|i: int, j: int|
            0 <= i < j < order.len() ==> (#[trigger] order[i]).0 != (#[trigger] order[j]).0,
    ensures
        forall|i: int|
            0 <= i < order.len() ==> inserted(m, order).contains_key((#[trigger] order[i]).0)
                && inserted(m, order)[order[i].0] == order[i].1,
        forall|k: u128|
            (forall|i: int| 0 <= i < order.len() ==> (#[trigger] order[i]).0 != k) ==> {
                &&& #[trigger] inserted(m, order).contains_key(k) == m.contains_key(k)
                &&& m.contains_key(k) ==> inserted(m, order)[k] == m[k]
            },
    decreases order.len(),
{
    if order.len() > 0 {
        let front = order.drop_last();
        assert forall|i: int, j: int| 0 <= i < j < front.len() implies (#[trigger] front[i]).0 != (
        #[trigger] front[j]).0 by {
            assert(order[i].0 != order[j].0);
        }
        lemma_inserted(m, front);
        assert forall|i: int| 0 <= i < order.len() implies inserted(m, order).contains_key(
            (#[trigger] order[i]).0,
        ) && inserted(m, order)[order[i].0] == order[i].1 by {
            if i < front.len() {
                assert(front[i] == order[i]);
                assert(order[i].0 != order[order.len() - 1].0);
            }
        }
        assert forall|k: u128|
            (forall|i: int| 0 <= i < order.len() ==> (#[trigger] order[i]).0 != k) implies {
            &&& #[trigger] inserted(m, order).contains_key(k) == m.contains_key(k)
            &&& m.contains_key(k) ==> inserted(m, order)[k] == m[k]
        } by {
            assert(order[order.len() - 1].0 != k);
            assert forall|i: int| 0 <= i < front.len() implies (#[trigger] front[i]).0 != k by {
                assert(order[i].0 != k);
            }
            assert(inserted(m, front).contains_key(k) == m.contains_key(k));
        }
    }
}

/// Inserting the first entry first is inserting all entries.
pub proof fn lemma_inserted_first<V>(m: Map<u128, V>, order: Seq<(u128, V)>)
    requires
        order.len() > 0,
    ensures
        inserted(m, order) == inserted(m.insert(order[0].0, order[0].1), order.drop_first()),
    decreases order.len(),
{
    if order.len() > 1 {
        lemma_inserted_first(m, order.drop_last());
        assert(order.drop_last().drop_first() =~= order.drop_first().drop_last());
    } else {
        assert(inserted(m, order.drop_last()) == m);
    }
}

/// Inserting the entries of a map gives the union, in whatever order they are
/// inserted.
pub proof fn law_inserted<V>(m: Map<u128, V>, order: Seq<(u128, V)>, added: Map<u128, V>)
    requires
        lists(order, added),
    ensures
        inserted(m, order) == m.union_prefer_right(added),
{
    let all = inserted(m, order);
    let both = m.union_prefer_right(added);
    lemma_inserted(m, order);
    assert forall|k: u128|
        #![trigger all.contains_key(k)]
        all.contains_key(k) == both.contains_key(k) && (both.contains_key(k) ==> all[k]
            == both[k]) by {
        if added.contains_key(k) {
            let i = choose|i: int| 0 <= i < order.len() && (#[trigger] order[i]).0 == k;
            assert(all.contains_key(order[i].0));
        } else {
            assert forall|i: int| 0 <= i < order.len() implies (#[trigger] order[i]).0 != k by {
                assert(added.contains_key(order[i].0));
            }
        }
    }
    assert(all =~= both);
}

/// Going through a map is going through the map with other values.
pub proof fn law_values<V, W>(order: Seq<(u128, V)>, m: Map<u128, V>, f: spec_fn(V) -> W)
    requires
        lists(order, m),
    ensures
        lists(with_values(order, f), m.map_values(f)),
{
    let valued = with_values(order, f);
    assert forall|i: int, j: int| 0 <= i < j < valued.len() implies (#[trigger] valued[i]).0 != (
    #[trigger] valued[j]).0 by {
        assert(order[i].0 != order[j].0);
    }
    assert forall|i: int| 0 <= i < valued.len() implies m.map_values(f).contains_key(
        (#[trigger] valued[i]).0,
    ) && m.map_values(f)[valued[i].0] == valued[i].1 by {
        assert(m.contains_key(order[i].0) && m[order[i].0] == order[i].1);
    }
    assert forall|k: u128| #[trigger] m.map_values(f).contains_key(k) implies exists|i: int|
        0 <= i < valued.len() && (#[trigger] valued[i]).0 == k by {
        assert(m.contains_key(k));
        let i = choose|i: int| 0 <= i < order.len() && (#[trigger] order[i]).0 == k;
        assert(valued[i].0 == k);
    }
}

/// Whoever goes through a map counts its entries.
pub proof fn law_len<V>(order: Seq<(u128, V)>, m: Map<u128, V>)
    requires
        lists(order, m),
    ensures
        order.len() == m.len(),
{
    let keys = order.map_values(|e: (u128, V)| e.0);
    assert forall|i: int, j: int| 0 <= i < j < keys.len() implies keys[i] != keys[j] by {
        assert(order[i].0 != order[j].0);
    }
    assert(keys.no_duplicates());
    keys.unique_seq_to_set();
    assert forall|k: u128| #[trigger] keys.to_set().contains(k) == m.dom().contains(k) by {
        if m.contains_key(k) {
            let i = choose|i: int| 0 <= i < order.len() && (#[trigger] order[i]).0 == k;
            assert(keys[i] == k);
        }
        if keys.to_set().contains(k) {
            let i = choose|i: int| 0 <= i < keys.len() && keys[i] == k;
            assert(m.contains_key(order[i].0));
        }
    }
    assert(keys.to_set() =~= m.dom());
}

/// The entries of a map, in the order in which the map gives them.
pub fn walk<V>(m: &HashMap<u128, V>) -> (order: Vec<(u128, &V)>)
    ensures
        lists(entries(order@), m@),
{
    broadcast use vstd::std_specs::hash::group_hash_axioms;

    let mut order: Vec<(u128, &V)> = Vec::new();
    let all = m.iter();
    for (key, value) in it: all
        invariant
            it.seq() == all.remaining(),
            order@.len() == it.index(),
            forall|i: int|
                0 <= i < order@.len() ==> (#[trigger] order@[i]).0 == *it.seq()[i].0 && order@[i].1
                    == it.seq()[i].1,
    {
        order.push((*key, value));
    }
    assert(order@.len() == all.remaining().len());
    assert(all.remaining().no_duplicates());
    let ghost listed = entries(order@);
    assert forall|i: int, j: int| 0 <= i < j < listed.len() implies (#[trigger] listed[i]).0 != (
    #[trigger] listed[j]).0 by {
        assert(all.remaining()[i] != all.remaining()[j]);
        assert(m@[*all.remaining()[i].0] == *all.remaining()[i].1);
        assert(m@[*all.remaining()[j].0] == *all.remaining()[j].1);
    }
    assert forall|k: u128| #[trigger] m@.contains_key(k) implies exists|i: int|
        0 <= i < listed.len() && (#[trigger] listed[i]).0 == k by {
        assert(all.remaining().contains((&k, &m@[k])));
        let i = choose|i: int| 0 <= i < all.remaining().len() && all.remaining()[i] == (&k, &m@[k]);
        assert(listed[i].0 == k);
    }
    order
}

/// The entries that references stand for have the same keys, and the values
/// that are referred to, in order.
pub proof fn law_entries<V>(order: Seq<(u128, &V)>, i: int)
    ensures
        entries(order).len() == order.len(),
        0 <= i < order.len() ==> entries(order)[i].0 == order[i].0 && entries(order)[i].1
            == *order[i].1,
{
}

} // verus!
