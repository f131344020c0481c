//! The keys of an ordered map, in the order in which the map walks them.

use std::collections::BTreeMap;
use vstd::prelude::*;
use vstd::std_specs::btree::axiom_increasing_seq_meaning;
use vstd::std_specs::btree::axiom_spec_btree_map_iter;
use vstd::std_specs::btree::increasing_seq;
use vstd::std_specs::btree::spec_btree_map_iter;
use vstd::std_specs::cmp::OrdSpec;
use vstd::std_specs::iter::IteratorSpec;

verus! {

/// The keys of `m`, ascending.
pub fn day_keys<V>(m: &BTreeMap<i32, V>) -> (keys: Vec<i32>)
    ensures
        forall|i: int, j: int| 0 <= i < j < keys@.len() ==> keys@[i] < keys@[j],
        forall|k: i32| keys@.contains(k) <==> m@.contains_key(k),
{
    let mut keys: Vec<i32> = Vec::new();
    let ghost all = spec_btree_map_iter(m).remaining();
    for kv in it: m.iter()
        invariant
            it.seq() == all,
            increasing_seq(all.map_values(|kv: (&i32, &V)| *kv.0)),
            keys@.len() == it.index(),
            forall|i: int| 0 <= i < keys@.len() ==> keys@[i] == *all[i].0,
    {
        keys.push(*kv.0);
    }
    proof {
        axiom_spec_btree_map_iter(m);
        let ks = all.map_values(|kv: (&i32, &V)| *kv.0);
        axiom_increasing_seq_meaning(ks);
        assert(keys@ =~= ks);
        assert forall|i: int, j: int| 0 <= i < j < keys@.len() implies keys@[i] < keys@[j] by {
            assert(ks[i].cmp_spec(&ks[j]) is Less);
        }
        assert forall|k: i32| keys@.contains(k) implies m@.contains_key(k) by {
            let i = choose|i: int| 0 <= i < keys@.len() && keys@[i] == k;
            assert(m@.contains_key(*all[i].0));
        }
        assert forall|k: i32| m@.contains_key(k) implies keys@.contains(k) by {
            assert(all.contains((&k, &m@[k])));
            let i = choose|i: int| 0 <= i < all.len() && all[i] == (&k, &m@[k]);
            assert(keys@[i] == k);
        }
    }
    keys
}

/// The keys of `m`, ascending.
pub fn id_keys<V>(m: &BTreeMap<u64, V>) -> (keys: Vec<u64>)
    ensures
        forall|i: int, j: int| 0 <= i < j < keys@.len() ==> keys@[i] < keys@[j],
        forall|k: u64| keys@.contains(k) <==> m@.contains_key(k),
{
    let mut keys: Vec<u64> = Vec::new();
    let ghost all = spec_btree_map_iter(m).remaining();
    for kv in it: m.iter()
        invariant
            it.seq() == all,
            increasing_seq(all.map_values(|kv: (&u64, &V)| *kv.0)),
            keys@.len() == it.index(),
            forall|i: int| 0 <= i < keys@.len() ==> keys@[i] == *all[i].0,
    {
        keys.push(*kv.0);
    }
    proof {
        axiom_spec_btree_map_iter(m);
        let ks = all.map_values(|kv: (&u64, &V)| *kv.0);
        axiom_increasing_seq_meaning(ks);
        assert(keys@ =~= ks);
        assert forall|i: int, j: int| 0 <= i < j < keys@.len() implies keys@[i] < keys@[j] by {
            assert(ks[i].cmp_spec(&ks[j]) is Less);
        }
        assert forall|k: u64| keys@.contains(k) implies m@.contains_key(k) by {
            let i = choose|i: int| 0 <= i < keys@.len() && keys@[i] == k;
            assert(m@.contains_key(*all[i].0));
        }
        assert forall|k: u64| m@.contains_key(k) implies keys@.contains(k) by {
            assert(all.contains((&k, &m@[k])));
            let i = choose|i: int| 0 <= i < all.len() && all[i] == (&k, &m@[k]);
            assert(keys@[i] == k);
        }
    }
    keys
}

} // verus!
