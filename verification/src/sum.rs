//! Sums: amounts of any number of units.
use vstd::prelude::*;
use std::collections::BTreeMap;
use vstd::std_specs::iter::IteratorSpec;
use crate::listing::{is_sorted_listing, lemma_btree_listing};

verus! {

/// Represents amounts of any number of units.
#[derive(Clone, PartialEq, Debug)]
pub struct Sum<Number>(pub(crate) BTreeMap<u64, Number>);

impl<Number> View for Sum<Number> {
    type V = Map<u64, Number>;

    closed spec fn view(&self) -> Map<u64, Number> {
        self.0@
    }
}

impl<Number> Sum<Number> {
    pub(crate) proof fn lemma_view_is_map(&self)
        ensures
            self@ == self.0@,
    {
    }

    /// Creates an empty sum.
    pub fn new() -> (s: Self)
        ensures
            s@ == Map::<u64, Number>::empty(),
    {
        Sum(BTreeMap::new())
    }

    /// Sets the amount of a unit in a sum.
    pub fn set_amount_for_unit(&mut self, amount: Number, unit_: u64)
        ensures
            final(self)@ == old(self)@.insert(unit_, amount),
    {
        self.0.insert(unit_, amount);
    }

    /// Gets the amounts of all units, in increasing order of unit.
    pub fn amounts(&self) -> (r: Vec<(&u64, &Number)>)
        ensures
            is_sorted_listing(r@.map_values(|e: (&u64, &Number)| (*e.0, *e.1)), self@),
    {
        let iter = self.0.iter();
        let ghost entries = iter.remaining();
        let mut r: Vec<(&u64, &Number)> = Vec::new();
        for e in it: iter
            invariant
                r@ == it.seq().take(it.index() as int),
                it.seq() == entries,
        {
            r.push(e);
        }
        proof {
            assert(r@ == entries);
            lemma_btree_listing(&self.0, entries);
        }
        r
    }
}

impl<Number> Default for Sum<Number> {
    /// An empty sum.
    fn default() -> (s: Self)
        ensures
            s@ == Map::<u64, Number>::empty(),
    {
        Sum::new()
    }
}

} // verus!
