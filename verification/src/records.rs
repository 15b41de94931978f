//! Records of a book that carry metadata: accounts, units and moves.
use vstd::prelude::*;
use crate::book::AccountKey;
use crate::sum::Sum;

verus! {

/// Represents an [account](https://en.wikipedia.org/wiki/Account_(bookkeeping)).
#[derive(Debug, PartialEq)]
pub struct Account<A> {
    pub meta: A,
}

impl<A> Account<A> {
    /// Creates an account with its metadata.
    pub fn new(meta: A) -> (a: Self)
        ensures
            a.meta == meta,
    {
        Self { meta }
    }

    /// Gets the metadata of the account.
    pub fn metadata(&self) -> (m: &A)
        ensures
            *m == self.meta,
    {
        &self.meta
    }

    /// Gets the metadata of the account.
    pub fn get_metadata(&self) -> (m: &A)
        ensures
            *m == self.meta,
    {
        &self.meta
    }

    /// Sets the metadata of the account.
    pub fn set_metadata(&mut self, meta: A)
        ensures
            final(self).meta == meta,
    {
        self.meta = meta;
    }
}

/// Represents a unit of measurement. Will most commonly represent the minor unit of a currency.
#[derive(Debug, PartialEq, Eq, PartialOrd, Ord)]
pub struct Unit<U> {
    pub meta: U,
}

impl<U> Unit<U> {
    /// Creates a new unit.
    pub fn new(meta: U) -> (u: Self)
        ensures
            u.meta == meta,
    {
        Self { meta }
    }

    /// Gets the metadata of the unit.
    pub fn metadata(&self) -> (m: &U)
        ensures
            *m == self.meta,
    {
        &self.meta
    }

    /// Gets the metadata of the unit.
    pub fn get_metadata(&self) -> (m: &U)
        ensures
            *m == self.meta,
    {
        &self.meta
    }

    /// Sets the metadata of the unit.
    pub fn set_metadata(&mut self, meta: U)
        ensures
            final(self).meta == meta,
    {
        self.meta = meta;
    }
}

/// Represents a move of a [Sum] of units from one account to another.
#[derive(Debug, PartialEq)]
pub struct Move<M> {
    pub meta: M,
    pub debit_account: AccountKey,
    pub credit_account: AccountKey,
    pub sum: Sum<u64>,
}

impl<M> Move<M> {
    /// Creates a move between two different accounts.
    pub fn new(debit_account: AccountKey, credit_account: AccountKey, sum: Sum<u64>, meta: M) -> (m: Self)
        requires
            debit_account != credit_account,
        ensures
            m.meta == meta,
            m.debit_account == debit_account,
            m.credit_account == credit_account,
            m.sum@ == sum@,
    {
        Self { meta, debit_account, credit_account, sum }
    }

    /// Gets the metadata of the move.
    pub fn metadata(&self) -> (m: &M)
        ensures
            *m == self.meta,
    {
        &self.meta
    }

    /// Gets the metadata of the move.
    pub fn get_metadata(&self) -> (m: &M)
        ensures
            *m == self.meta,
    {
        &self.meta
    }

    /// Sets the metadata of the move; its accounts and sum stay.
    pub fn set_metadata(&mut self, meta: M)
        ensures
            final(self).meta == meta,
            final(self).debit_account == old(self).debit_account,
            final(self).credit_account == old(self).credit_account,
            final(self).sum@ == old(self).sum@,
    {
        self.meta = meta;
    }
}

} // verus!
