//! Listings of unit-keyed maps in increasing order of unit.
use vstd::prelude::*;
use std::collections::BTreeMap;
use vstd::std_specs::iter::IteratorSpec;
use vstd::std_specs::cmp::OrdSpec;

verus! {

/// Whether `listing` lists the entries of `m` in strictly increasing order of unit.
pub open spec fn is_sorted_listing<N>(listing: Seq<(u64, N)>, m: Map<u64, N>) -> bool {
    &&& listing.len() == m.len()
    &&& forall|i: int| 0 <= i < listing.len() ==> #[trigger] m.contains_key(listing[i].0)
        && m[listing[i].0] == listing[i].1
    &&& forall|i: int, j: int| 0 <= i < j < listing.len() ==> listing[i].0 < listing[j].0
    &&& forall|u: u64| #[trigger] m.contains_key(u) ==> exists|i: int|
        0 <= i < listing.len() && listing[i].0 == u
}

/// The entries that a `BTreeMap` iterator yields list the map in increasing order of key.
pub proof fn lemma_btree_listing<N>(m: &BTreeMap<u64, N>, entries: Seq<(&u64, &N)>)
    requires
        entries == m.iter().remaining(),
        vstd::std_specs::btree::increasing_seq(entries.map_values(|kv: (&u64, &N)| *kv.0)),
    ensures
        is_sorted_listing(entries.map_values(|e: (&u64, &N)| (*e.0, *e.1)), m@),
{
    let l = entries.map_values(|e: (&u64, &N)| (*e.0, *e.1));
    let keys = entries.map_values(|kv: (&u64, &N)| *kv.0);
    assert forall|i: int, j: int| 0 <= i < j < l.len() implies l[i].0 < l[j].0 by {
        assert(vstd::laws_cmp::obeys_cmp::<u64>());
        assert(keys[i].cmp_spec(&keys[j]) is Less);
        assert(keys[i] == l[i].0);
        assert(keys[j] == l[j].0);
    }
    assert forall|u: u64| #[trigger] m@.contains_key(u) implies exists|i: int|
        0 <= i < l.len() && l[i].0 == u by {
        assert(entries.contains((&u, &m@[u])));
        let i = choose|i: int| 0 <= i < entries.len() && entries[i] == (&u, &m@[u]);
        assert(l[i].0 == u);
    }
}

} // verus!
