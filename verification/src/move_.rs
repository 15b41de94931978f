//! Moves of a sum from one account to another.
use vstd::prelude::*;
use crate::book::AccountKey;
use crate::sum::Sum;

verus! {

/// Represents a side of a [Move].
pub enum Side {
    Debit,
    Credit,
}

/// Represents a move of a [Sum] from one account to another.
pub struct Move<Number, Extra> {
    pub(crate) extra: Extra,
    pub(crate) debit_account_key: AccountKey,
    pub(crate) credit_account_key: AccountKey,
    pub(crate) sum: Sum<Number>,
}

impl<Number, Extra> Move<Number, Extra> {
    /// The account that the sum moves out of.
    pub closed spec fn debit_key(&self) -> AccountKey {
        self.debit_account_key
    }

    /// The account that the sum moves into.
    pub closed spec fn credit_key(&self) -> AccountKey {
        self.credit_account_key
    }

    /// The amounts that move, by unit.
    pub closed spec fn sum_view(&self) -> Map<u64, Number> {
        self.sum@
    }

    /// The extra data of the move.
    pub closed spec fn spec_extra(&self) -> Extra {
        self.extra
    }

    /// The account key of one side of the move.
    pub open spec fn spec_side_key(&self, side: Side) -> AccountKey {
        match side {
            Side::Debit => self.debit_key(),
            Side::Credit => self.credit_key(),
        }
    }

    /// Creates a move between two different accounts.
    pub fn new(
        debit_account_key: AccountKey,
        credit_account_key: AccountKey,
        sum: Sum<Number>,
        extra: Extra,
    ) -> (m: Self)
        requires
            debit_account_key != credit_account_key,
        ensures
            m.debit_key() == debit_account_key,
            m.credit_key() == credit_account_key,
            m.sum_view() == sum@,
            m.spec_extra() == extra,
    {
        Move { extra, debit_account_key, credit_account_key, sum }
    }

    pub(crate) fn set_extra(&mut self, extra: Extra)
        ensures
            final(self).spec_extra() == extra,
            final(self).debit_key() == old(self).debit_key(),
            final(self).credit_key() == old(self).credit_key(),
            final(self).sum_view() == old(self).sum_view(),
    {
        self.extra = extra;
    }

    pub(crate) fn set_sum(&mut self, sum: Sum<Number>)
        ensures
            final(self).spec_extra() == old(self).spec_extra(),
            final(self).debit_key() == old(self).debit_key(),
            final(self).credit_key() == old(self).credit_key(),
            final(self).sum_view() == sum@,
    {
        self.sum = sum;
    }

    pub(crate) fn set_side_key(&mut self, side: Side, key: AccountKey)
        ensures
            final(self).spec_extra() == old(self).spec_extra(),
            final(self).sum_view() == old(self).sum_view(),
            final(self).debit_key() == match side {
                Side::Debit => key,
                Side::Credit => old(self).debit_key(),
            },
            final(self).credit_key() == match side {
                Side::Debit => old(self).credit_key(),
                Side::Credit => key,
            },
    {
        match side {
            Side::Debit => self.debit_account_key = key,
            Side::Credit => self.credit_account_key = key,
        }
    }

    /// Gets the account key of one of the sides of a move.
    pub fn side_key(&self, side: Side) -> (k: AccountKey)
        ensures
            k == self.spec_side_key(side),
    {
        match side {
            Side::Debit => self.debit_account_key,
            Side::Credit => self.credit_account_key,
        }
    }

    /// Gets the sum of a move.
    pub fn sum(&self) -> (s: &Sum<Number>)
        ensures
            s@ == self.sum_view(),
    {
        &self.sum
    }

    /// Gets the extra data of the move.
    pub fn extra(&self) -> (e: &Extra)
        ensures
            *e == self.spec_extra(),
    {
        &self.extra
    }
}

} // verus!
