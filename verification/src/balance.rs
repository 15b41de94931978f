//! Balances: how much of each unit is in an account at some transaction.
use vstd::prelude::*;
use std::collections::BTreeMap;
use vstd::std_specs::iter::IteratorSpec;
use crate::listing::{is_sorted_listing, lemma_btree_listing};
use crate::sum::Sum;

verus! {

/// The amount of `unit` in a balance model: absent units hold nothing.
pub open spec fn amount_of(b: Map<u64, int>, unit: u64) -> int {
    if b.contains_key(unit) {
        b[unit]
    } else {
        0
    }
}

/// A balance model after `amount` of `unit` moved in (`incoming`) or out of it.
/// A unit that a move touches is present afterwards, even where it nets to zero.
pub open spec fn moved_unit(b: Map<u64, int>, unit: u64, amount: int, incoming: bool) -> Map<u64, int> {
    b.insert(unit, if incoming { amount_of(b, unit) + amount } else { amount_of(b, unit) - amount })
}

/// A balance model after every unit of a sum moved in (`incoming`) or out of it.
pub open spec fn moved_sum(b: Map<u64, int>, s: Map<u64, u64>, incoming: bool) -> Map<u64, int> {
    Map::new(
        |u: u64| b.contains_key(u) || s.contains_key(u),
        |u: u64|
            if s.contains_key(u) {
                if incoming {
                    amount_of(b, u) + s[u]
                } else {
                    amount_of(b, u) - s[u]
                }
            } else {
                b[u]
            },
    )
}

/// Whether an amount is representable as `i128`.
pub open spec fn fits_i128(x: int) -> bool {
    i128::MIN <= x <= i128::MAX
}

/// Whether every amount of a balance model is representable as `i128`.
pub open spec fn balance_fits(b: Map<u64, int>) -> bool {
    forall|u: u64| #[trigger] b.contains_key(u) ==> fits_i128(b[u])
}

/// Represents a [balance](https://en.wikipedia.org/wiki/Balance_(accounting)),
/// yet not necessarily the current balance.
#[derive(Clone, PartialEq, Debug)]
pub struct Balance(pub(crate) BTreeMap<u64, i128>);

impl View for Balance {
    type V = Map<u64, int>;

    closed spec fn view(&self) -> Map<u64, int> {
        self.0@.map_values(|v: i128| v as int)
    }
}

fn add_amount(balance_amount: i128, amount: u64) -> (r: i128)
    requires
        fits_i128(balance_amount + amount),
    ensures
        r == balance_amount + amount,
{
    balance_amount + amount as i128
}

fn sub_amount(balance_amount: i128, amount: u64) -> (r: i128)
    requires
        fits_i128(balance_amount - amount),
    ensures
        r == balance_amount - amount,
{
    balance_amount - amount as i128
}

impl Balance {
    /// Every amount of a balance is an `i128`.
    pub proof fn lemma_fits(&self)
        ensures
            balance_fits(self@),
    {
    }

    /// Creates a balance that holds no unit.
    pub(crate) fn new() -> (b: Self)
        ensures
            b@ == Map::<u64, int>::empty(),
    {
        let b = Balance(BTreeMap::new());
        assert(b@ =~= Map::<u64, int>::empty());
        b
    }

    /// Replaces the amount of a unit with what `amount_op` makes of it and an amount;
    /// an absent unit starts from zero. Gives back the new amount.
    pub fn apply_unit_operation<F: Fn(i128, u64) -> i128>(
        &mut self,
        unit_amount: &(u64, u64),
        amount_op: F,
    ) -> (result: i128)
        requires
            call_requires(amount_op, (amount_of(old(self)@, unit_amount.0) as i128, unit_amount.1)),
        ensures
            call_ensures(amount_op, (amount_of(old(self)@, unit_amount.0) as i128, unit_amount.1), result),
            final(self)@ == old(self)@.insert(unit_amount.0, result as int),
    {
        let unit = unit_amount.0;
        let amount = unit_amount.1;
        let current: i128 = match self.0.get(&unit) {
            Some(v) => *v,
            None => 0,
        };
        let result = amount_op(current, amount);
        self.0.insert(unit, result);
        assert(self@ =~= old(self)@.insert(unit, result as int));
        result
    }

    /// Replaces the amount of every unit of a sum with what `amount_op` makes of it and the
    /// sum's amount; an absent unit starts from zero. Other units keep their amounts.
    pub fn apply_sum_operation<F: Fn(i128, u64) -> i128>(&mut self, rhs: &Sum<u64>, amount_op: F)
        requires
            forall|u: u64| #[trigger] rhs@.contains_key(u) ==> call_requires(
                amount_op,
                (amount_of(old(self)@, u) as i128, rhs@[u]),
            ),
        ensures
            final(self)@.dom() == old(self)@.dom().union(rhs@.dom()),
            forall|u: u64| #[trigger] rhs@.contains_key(u) ==> call_ensures(
                amount_op,
                (amount_of(old(self)@, u) as i128, rhs@[u]),
                final(self)@[u] as i128,
            ),
            forall|u: u64| !rhs@.contains_key(u) && #[trigger] old(self)@.contains_key(u)
                ==> final(self)@[u] == old(self)@[u],
    {
        let ghost old_view = self@;
        let iter = rhs.0.iter();
        let ghost entries = iter.remaining();
        proof {
            lemma_btree_listing(&rhs.0, entries);
            rhs.lemma_view_is_map();
        }
        let ghost listing = entries.map_values(|e: (&u64, &u64)| (*e.0, *e.1));
        for e in it: iter
            invariant
                it.seq() == entries,
                listing == entries.map_values(|e: (&u64, &u64)| (*e.0, *e.1)),
                is_sorted_listing(listing, rhs@),
                forall|u: u64| #[trigger] rhs@.contains_key(u) ==> call_requires(
                    amount_op,
                    (amount_of(old_view, u) as i128, rhs@[u]),
                ),
                self@.dom() == old_view.dom().union(
                    listing.take(it.index() as int).map_values(|p: (u64, u64)| p.0).to_set(),
                ),
                forall|i: int| 0 <= i < it.index() ==> call_ensures(
                    amount_op,
                    (amount_of(old_view, #[trigger] listing[i].0) as i128, listing[i].1),
                    self@[listing[i].0] as i128,
                ),
                forall|u: u64| #[trigger] old_view.contains_key(u) && (forall|i: int|
                    0 <= i < it.index() ==> listing[i].0 != u) ==> self@[u] == old_view[u],
                balance_fits(self@),
        {
            let ghost idx = it.index();
            let ghost before = self@;
            let unit = *e.0;
            let amount = *e.1;
            assert(listing[idx] == (unit, amount));
            assert(rhs@.contains_key(unit));
            assert forall|i: int| 0 <= i < idx implies listing[i].0 != unit by {}
            assert(amount_of(before, unit) == amount_of(old_view, unit)) by {
                if before.contains_key(unit) {
                    let keys = listing.take(idx).map_values(|p: (u64, u64)| p.0);
                    if !old_view.contains_key(unit) {
                        assert(keys.to_set().contains(unit));
                        let k = choose|k: int| 0 <= k < keys.len() && keys[k] == unit;
                        assert(listing[k].0 == unit);
                    }
                }
            }
            self.apply_unit_operation(&(unit, amount), &amount_op);
            proof {
                if old_view.contains_key(unit) {
                    assert(before[unit] == old_view[unit]);
                }
                let keys0 = listing.take(idx).map_values(|p: (u64, u64)| p.0);
                let keys1 = listing.take(idx + 1).map_values(|p: (u64, u64)| p.0);
                assert(keys1 == keys0.push(unit));
                assert forall|x: u64| keys1.contains(x) <==> keys0.contains(x) || x == unit by {
                    if keys1.contains(x) {
                        let k = choose|k: int| 0 <= k < keys1.len() && keys1[k] == x;
                        if k < keys0.len() {
                            assert(keys0[k] == x);
                        }
                    }
                    if keys0.contains(x) {
                        let k = choose|k: int| 0 <= k < keys0.len() && keys0[k] == x;
                        assert(keys1[k] == x);
                    }
                    if x == unit {
                        assert(keys1[idx] == x);
                    }
                }
                assert(keys1.to_set() =~= keys0.to_set().insert(unit));
                assert(self@.dom() =~= old_view.dom().union(keys1.to_set()));
                assert forall|i: int| 0 <= i < idx + 1 implies call_ensures(
                    amount_op,
                    (amount_of(old_view, #[trigger] listing[i].0) as i128, listing[i].1),
                    self@[listing[i].0] as i128,
                ) by {
                    if i < idx {
                        assert(listing[i].0 != unit);
                    }
                }
            }
        }
        proof {
            let keys = listing.map_values(|p: (u64, u64)| p.0);
            assert(listing.take(listing.len() as int) == listing);
            assert forall|u: u64| keys.to_set().contains(u) <==> rhs@.contains_key(u) by {
                if rhs@.contains_key(u) {
                    let i = choose|i: int| 0 <= i < listing.len() && listing[i].0 == u;
                    assert(keys[i] == u);
                }
                if keys.to_set().contains(u) {
                    let i = choose|i: int| 0 <= i < keys.len() && keys[i] == u;
                    assert(listing[i].0 == u);
                }
            }
            assert(keys.to_set() =~= rhs@.dom());
            assert forall|u: u64| #[trigger] rhs@.contains_key(u) implies call_ensures(
                amount_op,
                (amount_of(old_view, u) as i128, rhs@[u]),
                self@[u] as i128,
            ) by {
                let i = choose|i: int| 0 <= i < listing.len() && listing[i].0 == u;
                assert(listing[i].1 == rhs@[u]);
            }
        }
    }

    /// Adds every amount of a sum to this balance.
    pub fn add_assign_sum(&mut self, sum: &Sum<u64>)
        requires
            balance_fits(moved_sum(old(self)@, sum@, true)),
        ensures
            final(self)@ == moved_sum(old(self)@, sum@, true),
    {
        let ghost target = moved_sum(self@, sum@, true);
        assert forall|u: u64| #[trigger] sum@.contains_key(u) implies fits_i128(
            amount_of(self@, u) + sum@[u],
        ) by {
            assert(target.contains_key(u));
        }
        proof {
            self.lemma_fits();
        }
        self.apply_sum_operation(
            sum,
            add_amount,
        );
        assert(self@ =~= target);
    }

    /// Subtracts every amount of a sum from this balance.
    pub fn sub_assign_sum(&mut self, sum: &Sum<u64>)
        requires
            balance_fits(moved_sum(old(self)@, sum@, false)),
        ensures
            final(self)@ == moved_sum(old(self)@, sum@, false),
    {
        let ghost target = moved_sum(self@, sum@, false);
        assert forall|u: u64| #[trigger] sum@.contains_key(u) implies fits_i128(
            amount_of(self@, u) - sum@[u],
        ) by {
            assert(target.contains_key(u));
        }
        proof {
            self.lemma_fits();
        }
        self.apply_sum_operation(
            sum,
            sub_amount,
        );
        assert(self@ =~= target);
    }

    /// Adds an amount of a unit to this balance.
    pub fn add_assign_unit(&mut self, unit_amount: &(u64, u64))
        requires
            fits_i128(amount_of(old(self)@, unit_amount.0) + unit_amount.1),
        ensures
            final(self)@ == moved_unit(old(self)@, unit_amount.0, unit_amount.1 as int, true),
    {
        proof {
            self.lemma_fits();
        }
        self.apply_unit_operation(
            unit_amount,
            add_amount,
        );
    }

    /// Subtracts an amount of a unit from this balance.
    pub fn sub_assign_unit(&mut self, unit_amount: &(u64, u64))
        requires
            fits_i128(amount_of(old(self)@, unit_amount.0) - unit_amount.1),
        ensures
            final(self)@ == moved_unit(old(self)@, unit_amount.0, unit_amount.1 as int, false),
    {
        proof {
            self.lemma_fits();
        }
        self.apply_unit_operation(
            unit_amount,
            sub_amount,
        );
    }

    /// This balance with every amount of a sum added.
    pub fn add_sum(self, sum: &Sum<u64>) -> (r: Self)
        requires
            balance_fits(moved_sum(self@, sum@, true)),
        ensures
            r@ == moved_sum(self@, sum@, true),
    {
        let mut b = self;
        b.add_assign_sum(sum);
        b
    }

    /// This balance with every amount of a sum subtracted.
    pub fn sub_sum(self, sum: &Sum<u64>) -> (r: Self)
        requires
            balance_fits(moved_sum(self@, sum@, false)),
        ensures
            r@ == moved_sum(self@, sum@, false),
    {
        let mut b = self;
        b.sub_assign_sum(sum);
        b
    }

    /// This balance with an amount of a unit added.
    pub fn add_unit(self, unit_amount: &(u64, u64)) -> (r: Self)
        requires
            fits_i128(amount_of(self@, unit_amount.0) + unit_amount.1),
        ensures
            r@ == moved_unit(self@, unit_amount.0, unit_amount.1 as int, true),
    {
        let mut b = self;
        b.add_assign_unit(unit_amount);
        b
    }

    /// This balance with an amount of a unit subtracted.
    pub fn sub_unit(self, unit_amount: &(u64, u64)) -> (r: Self)
        requires
            fits_i128(amount_of(self@, unit_amount.0) - unit_amount.1),
        ensures
            r@ == moved_unit(self@, unit_amount.0, unit_amount.1 as int, false),
    {
        let mut b = self;
        b.sub_assign_unit(unit_amount);
        b
    }

    /// Gets the amounts of all units, in increasing order of unit.
    pub fn amounts(&self) -> (r: Vec<(&u64, &i128)>)
        ensures
            is_sorted_listing(r@.map_values(|e: (&u64, &i128)| (*e.0, *e.1 as int)), self@),
    {
        let iter = self.0.iter();
        let ghost entries = iter.remaining();
        let mut r: Vec<(&u64, &i128)> = Vec::new();
        for e in it: iter
            invariant
                r@ == it.seq().take(it.index() as int),
                it.seq() == entries,
        {
            r.push(e);
        }
        proof {
            assert(r@ == entries);
            lemma_btree_listing(&self.0, entries);
            let l = entries.map_values(|e: (&u64, &i128)| (*e.0, *e.1));
            let li = entries.map_values(|e: (&u64, &i128)| (*e.0, *e.1 as int));
            assert forall|i: int| 0 <= i < li.len() implies #[trigger] self@.contains_key(li[i].0)
                && self@[li[i].0] == li[i].1 by {
                assert(l[i].0 == li[i].0);
                assert(self.0@.contains_key(l[i].0));
            }
            assert forall|u: u64| #[trigger] self@.contains_key(u) implies exists|i: int|
                0 <= i < li.len() && li[i].0 == u by {
                assert(self.0@.contains_key(u));
                let i = choose|i: int| 0 <= i < l.len() && l[i].0 == u;
                assert(li[i].0 == u);
            }
            assert(self.0@.dom() =~= self@.dom());
            assert(li.len() == self@.len());
            assert forall|i: int, j: int| 0 <= i < j < li.len() implies li[i].0 < li[j].0 by {
                assert(l[i].0 == li[i].0);
                assert(l[j].0 == li[j].0);
            }
            assert(is_sorted_listing(li, self@));
        }
        r
    }

    /// Gets the amount of a provided unit.
    pub fn unit_amount(&self, unit: u64) -> (r: Option<&i128>)
        ensures
            match r {
                Some(v) => self@.contains_key(unit) && self@[unit] == *v as int,
                None => !self@.contains_key(unit),
            },
    {
        self.0.get(&unit)
    }
}

impl Default for Balance {
    /// A balance that holds no unit.
    fn default() -> (b: Self)
        ensures
            b@ == Map::<u64, int>::empty(),
    {
        Balance::new()
    }
}

/// Adding a sum to a balance and then subtracting the same sum gives back every amount;
/// a unit that only the sum held stays in the balance with nothing in it.
pub proof fn lemma_add_then_sub_sum(b: Map<u64, int>, s: Map<u64, u64>)
    ensures
        moved_sum(moved_sum(b, s, true), s, false).dom() == b.dom().union(s.dom()),
        forall|u: u64| #[trigger]
            amount_of(moved_sum(moved_sum(b, s, true), s, false), u) == amount_of(b, u),
{
    assert(moved_sum(moved_sum(b, s, true), s, false).dom() =~= b.dom().union(s.dom()));
}

/// Moving an amount of a unit in adds it to the unit's amount, moving it out subtracts it,
/// whatever the amount held before; the unit is present afterwards and no other unit changes.
pub proof fn lemma_moved_unit_amounts(b: Map<u64, int>, unit: u64, amount: int, other: u64)
    ensures
        amount_of(moved_unit(b, unit, amount, true), unit) == amount_of(b, unit) + amount,
        amount_of(moved_unit(b, unit, amount, false), unit) == amount_of(b, unit) - amount,
        moved_unit(b, unit, amount, true).dom() == b.dom().insert(unit),
        moved_unit(b, unit, amount, false).dom() == b.dom().insert(unit),
        other != unit ==> moved_unit(b, unit, amount, true).contains_key(other) == b.contains_key(other)
            && amount_of(moved_unit(b, unit, amount, true), other) == amount_of(b, other),
        other != unit ==> moved_unit(b, unit, amount, false).contains_key(other) == b.contains_key(other)
            && amount_of(moved_unit(b, unit, amount, false), other) == amount_of(b, other),
{
    assert(moved_unit(b, unit, amount, true).dom() =~= b.dom().insert(unit));
    assert(moved_unit(b, unit, amount, false).dom() =~= b.dom().insert(unit));
}

/// Moving an amount of a unit out and then in again gives back every amount.
pub proof fn lemma_sub_then_add_unit(b: Map<u64, int>, unit: u64, amount: int, u: u64)
    ensures
        amount_of(moved_unit(moved_unit(b, unit, amount, false), unit, amount, true), u) == amount_of(b, u),
{
}

/// Moving a sum in adds each of its amounts to the unit's amount, moving it out subtracts
/// each, whatever the amounts held before; units absent from the sum keep their amounts.
pub proof fn lemma_moved_sum_amounts(b: Map<u64, int>, s: Map<u64, u64>, u: u64)
    ensures
        amount_of(moved_sum(b, s, true), u) == amount_of(b, u) + (if s.contains_key(u) { s[u] as int } else { 0 }),
        amount_of(moved_sum(b, s, false), u) == amount_of(b, u) - (if s.contains_key(u) { s[u] as int } else { 0 }),
        moved_sum(b, s, true).dom() == b.dom().union(s.dom()),
        moved_sum(b, s, false).dom() == b.dom().union(s.dom()),
{
    assert(moved_sum(b, s, true).dom() =~= b.dom().union(s.dom()));
    assert(moved_sum(b, s, false).dom() =~= b.dom().union(s.dom()));
}

} // verus!
