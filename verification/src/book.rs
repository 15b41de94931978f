//! Books: accounts and an ordered collection of transactions.
use vstd::prelude::*;
use crate::balance::{Balance, balance_fits, moved_sum};
use crate::move_::{Move, Side};
use crate::slots::{AccountSlots, slot_entries, slots_get, slots_insert, slots_listing, slots_new};
use crate::sum::Sum;
use crate::transaction::{MoveIndex, Transaction};

verus! {

/// A key type for referencing accounts.
#[derive(Clone, Copy, PartialEq, Eq, Structural, Debug, Hash, PartialOrd, Ord)]
pub struct AccountKey(u64);

/// Used to index transactions in the book.
pub struct TransactionIndex(pub usize);

/// Represents a book.
pub struct Book<SumNumber, Account, TransactionExtra, MoveExtra> {
    accounts: AccountSlots,
    account_values: Vec<Account>,
    transactions: Vec<Transaction<SumNumber, TransactionExtra, MoveExtra>>,
}

/// The moves of a sequence of transactions, transaction after transaction, each in its order.
pub open spec fn moves_of<N, T, M>(txs: Seq<Transaction<N, T, M>>) -> Seq<Move<N, M>>
    decreases txs.len(),
{
    if txs.len() == 0 {
        Seq::empty()
    } else {
        moves_of(txs.drop_last()) + txs.last().moves_view()
    }
}

/// The balance model of an account after a sequence of moves: each move out of the
/// account subtracts its sum, each move into it adds its sum.
pub open spec fn balance_after<M>(moves: Seq<Move<u64, M>>, key: AccountKey) -> Map<u64, int>
    decreases moves.len(),
{
    if moves.len() == 0 {
        Map::empty()
    } else {
        let b = balance_after(moves.drop_last(), key);
        let m = moves.last();
        if m.debit_key() == key {
            moved_sum(b, m.sum_view(), false)
        } else if m.credit_key() == key {
            moved_sum(b, m.sum_view(), true)
        } else {
            b
        }
    }
}

/// Whether every balance of an account along a sequence of moves is representable as `i128`.
pub open spec fn balances_fit<M>(moves: Seq<Move<u64, M>>, key: AccountKey) -> bool {
    forall|j: int| 0 <= j <= moves.len() ==> balance_fits(#[trigger] balance_after(moves.take(j), key))
}

/// Whether a move is between two different accounts of `keys`.
pub open spec fn move_is_valid<N, M>(m: Move<N, M>, keys: Seq<AccountKey>) -> bool {
    &&& m.debit_key() != m.credit_key()
    &&& keys.contains(m.debit_key())
    &&& keys.contains(m.credit_key())
}

impl<SumNumber, Account, TransactionExtra, MoveExtra> Book<
    SumNumber,
    Account,
    TransactionExtra,
    MoveExtra,
> {
    /// The keys of the accounts, in order of creation.
    pub closed spec fn account_keys(&self) -> Seq<AccountKey> {
        slot_entries(self.accounts).map_values(|e: (u64, usize)| AccountKey(e.0))
    }

    /// The accounts, in order of creation.
    pub closed spec fn account_values(&self) -> Seq<Account> {
        self.account_values@
    }

    /// The transactions, in their order.
    pub closed spec fn transactions_view(&self) -> Seq<
        Transaction<SumNumber, TransactionExtra, MoveExtra>,
    > {
        self.transactions@
    }

    /// Whether an account of this key is in the book.
    pub open spec fn has_account(&self, key: AccountKey) -> bool {
        self.account_keys().contains(key)
    }

    /// The account of a key that is in the book.
    pub open spec fn account_of(&self, key: AccountKey) -> Account {
        self.account_values()[self.account_keys().index_of(key)]
    }

    /// The well-formedness of a book: each account key is unique and has one account,
    /// and every move is between two different accounts of the book.
    pub closed spec fn wf(&self) -> bool {
        let entries = slot_entries(self.accounts);
        &&& entries.len() == self.account_values@.len()
        &&& entries.len() < u32::MAX
        &&& forall|i: int| 0 <= i < entries.len() ==> (#[trigger] entries[i]).1 == i
        &&& self.account_keys().no_duplicates()
        &&& forall|i: int, j: int|
            0 <= i < self.transactions@.len() && 0 <= j < self.transactions@[i].moves_view().len()
                ==> move_is_valid(
                #[trigger] self.transactions@[i].moves_view()[j],
                self.account_keys(),
            )
    }
}

impl<SumNumber, Account, TransactionExtra, MoveExtra> Default for Book<
    SumNumber,
    Account,
    TransactionExtra,
    MoveExtra,
> {
    fn default() -> (book: Self)
        ensures
            book.wf(),
            book.account_keys() == Seq::<AccountKey>::empty(),
            book.account_values() == Seq::<Account>::empty(),
            book.transactions_view() == Seq::<
                Transaction<SumNumber, TransactionExtra, MoveExtra>,
            >::empty(),
    {
        let book = Book { accounts: slots_new(), account_values: Vec::new(), transactions: Vec::new() };
        assert(book.account_keys() =~= Seq::<AccountKey>::empty());
        book
    }
}

impl<SumNumber, Account, TransactionExtra, MoveExtra> Book<
    SumNumber,
    Account,
    TransactionExtra,
    MoveExtra,
> {
    proof fn lemma_key_index(&self, key: AccountKey)
        requires
            self.wf(),
            self.has_account(key),
        ensures
            0 <= self.account_keys().index_of(key) < self.account_values().len(),
            self.account_keys()[self.account_keys().index_of(key)] == key,
            slot_entries(self.accounts)[self.account_keys().index_of(key)]
                == (key.0, self.account_keys().index_of(key) as usize),
    {
        let i = self.account_keys().index_of(key);
        assert(self.account_keys()[i] == AccountKey(slot_entries(self.accounts)[i].0));
    }

    /// In a well-formed book, the account keys are unique and every move of the first
    /// transactions is between two different accounts of the book.
    pub proof fn lemma_wf_moves_valid(&self, n: int)
        requires
            self.wf(),
            0 <= n <= self.transactions_view().len(),
        ensures
            self.account_keys().no_duplicates(),
            forall|k: int|
                0 <= k < moves_of(self.transactions_view().take(n)).len() ==> move_is_valid(
                    #[trigger] moves_of(self.transactions_view().take(n))[k],
                    self.account_keys(),
                ),
    {
        let txs = self.transactions@.take(n);
        assert forall|i: int, j: int|
            0 <= i < txs.len() && 0 <= j < txs[i].moves_view().len() implies move_is_valid(
            #[trigger] txs[i].moves_view()[j],
            self.account_keys(),
        ) by {
            assert(txs[i] == self.transactions@[i]);
        }
        crate::double_entry::lemma_moves_of_valid(txs, self.account_keys());
    }

    /// In a well-formed book, every account key has an account.
    pub proof fn lemma_values_match_keys(&self)
        requires
            self.wf(),
        ensures
            self.account_keys().len() == self.account_values().len(),
    {
    }

    /// The position of an account's data.
    fn account_position(&self, key: AccountKey) -> (i: usize)
        requires
            self.wf(),
            self.has_account(key),
        ensures
            i == self.account_keys().index_of(key),
            i < self.account_values().len(),
    {
        proof {
            self.lemma_key_index(key);
        }
        let i = slots_get(&self.accounts, key.0).unwrap();
        proof {
            let k = self.account_keys().index_of(key);
            assert(slot_entries(self.accounts)[k].0 == key.0);
        }
        i
    }

    /// Inserts an account.
    pub fn insert_account(&mut self, account: Account) -> (key: AccountKey)
        requires
            old(self).wf(),
            old(self).account_keys().len() + 1 < u32::MAX,
        ensures
            final(self).wf(),
            !old(self).has_account(key),
            final(self).account_keys() == old(self).account_keys().push(key),
            final(self).account_values() == old(self).account_values().push(account),
            final(self).transactions_view() == old(self).transactions_view(),
    {
        let ghost old_keys = self.account_keys();
        let position = self.account_values.len();
        let k = slots_insert(&mut self.accounts, position);
        self.account_values.push(account);
        let key = AccountKey(k);
        proof {
            assert(self.account_keys() =~= old_keys.push(key));
            assert forall|i: int| 0 <= i < old_keys.len() implies old_keys[i] != key by {
                assert(old_keys[i] == AccountKey(slot_entries(old(self).accounts)[i].0));
            }
            assert forall|i: int, j: int|
                0 <= i < self.transactions@.len() && 0 <= j < self.transactions@[i].moves_view().len()
                    implies move_is_valid(
                    #[trigger] self.transactions@[i].moves_view()[j],
                    self.account_keys(),
                ) by {
                let m = self.transactions@[i].moves_view()[j];
                assert(move_is_valid(m, old_keys));
                assert(old_keys.contains(m.debit_key()));
                let a = choose|a: int| 0 <= a < old_keys.len() && old_keys[a] == m.debit_key();
                assert(self.account_keys()[a] == m.debit_key());
                let b = choose|b: int| 0 <= b < old_keys.len() && old_keys[b] == m.credit_key();
                assert(self.account_keys()[b] == m.credit_key());
            }
        }
        key
    }

    /// Gets an account using a key.
    pub fn get_account(&self, account_key: AccountKey) -> (account: &Account)
        requires
            self.wf(),
            self.has_account(account_key),
        ensures
            *account == self.account_of(account_key),
    {
        let i = self.account_position(account_key);
        &self.account_values[i]
    }

    /// Gets the existing accounts with their keys, in order of creation.
    pub fn accounts(&self) -> (r: Vec<(AccountKey, &Account)>)
        requires
            self.wf(),
        ensures
            r@.len() == self.account_keys().len(),
            forall|i: int|
                0 <= i < r@.len() ==> (#[trigger] r@[i]).0 == self.account_keys()[i] && *r@[i].1
                    == self.account_values()[i],
    {
        let listing = slots_listing(&self.accounts);
        let mut r: Vec<(AccountKey, &Account)> = Vec::new();
        let mut i: usize = 0;
        while i < listing.len()
            invariant
                self.wf(),
                listing@ == slot_entries(self.accounts),
                i <= listing@.len(),
                r@.len() == i,
                forall|k: int|
                    0 <= k < i ==> (#[trigger] r@[k]).0 == self.account_keys()[k] && *r@[k].1
                        == self.account_values()[k],
            decreases listing@.len() - i,
        {
            let (k, position) = listing[i];
            assert(position == i);
            r.push((AccountKey(k), &self.account_values[position]));
            i = i + 1;
        }
        r
    }

    /// Sets an existing account.
    pub fn set_account(&mut self, account_key: AccountKey, account: Account)
        requires
            old(self).wf(),
            old(self).has_account(account_key),
        ensures
            final(self).wf(),
            final(self).account_keys() == old(self).account_keys(),
            final(self).account_values() == old(self).account_values().update(
                old(self).account_keys().index_of(account_key),
                account,
            ),
            final(self).transactions_view() == old(self).transactions_view(),
    {
        let i = self.account_position(account_key);
        self.account_values.set(i, account);
    }
}

impl<SumNumber, Account, TransactionExtra, MoveExtra> Book<
    SumNumber,
    Account,
    TransactionExtra,
    MoveExtra,
> {
    /// Creates a transaction and inserts it at an index.
    pub fn insert_transaction(&mut self, transaction_index: TransactionIndex, extra: TransactionExtra)
        requires
            old(self).wf(),
            transaction_index.0 <= old(self).transactions_view().len(),
        ensures
            final(self).wf(),
            final(self).account_keys() == old(self).account_keys(),
            final(self).account_values() == old(self).account_values(),
            final(self).transactions_view() == old(self).transactions_view().insert(
                transaction_index.0 as int,
                final(self).transactions_view()[transaction_index.0 as int],
            ),
            final(self).transactions_view()[transaction_index.0 as int].spec_extra() == extra,
            final(self).transactions_view()[transaction_index.0 as int].moves_view() == Seq::<
                Move<SumNumber, MoveExtra>,
            >::empty(),
    {
        let ghost old_txs = self.transactions@;
        let t = transaction_index.0;
        self.transactions.insert(t, Transaction::new(extra));
        proof {
            assert forall|i: int, j: int|
                0 <= i < self.transactions@.len() && 0 <= j < self.transactions@[i].moves_view().len()
                    implies move_is_valid(
                    #[trigger] self.transactions@[i].moves_view()[j],
                    self.account_keys(),
                ) by {
                if i < t {
                    assert(self.transactions@[i] == old_txs[i]);
                } else if i > t {
                    assert(self.transactions@[i] == old_txs[i - 1]);
                }
            }
        }
    }

    /// Gets the existing transactions in their order, each with its index.
    pub fn transactions(&self) -> (r: Vec<(TransactionIndex, &Transaction<SumNumber, TransactionExtra, MoveExtra>)>)
        ensures
            r@.len() == self.transactions_view().len(),
            forall|i: int|
                0 <= i < r@.len() ==> (#[trigger] r@[i]).0.0 == i && *r@[i].1
                    == self.transactions_view()[i],
    {
        let mut r: Vec<(TransactionIndex, &Transaction<SumNumber, TransactionExtra, MoveExtra>)> =
            Vec::new();
        let mut i: usize = 0;
        while i < self.transactions.len()
            invariant
                i <= self.transactions@.len(),
                r@.len() == i,
                forall|k: int|
                    0 <= k < i ==> (#[trigger] r@[k]).0.0 == k && *r@[k].1 == self.transactions@[k],
            decreases self.transactions@.len() - i,
        {
            r.push((TransactionIndex(i), &self.transactions[i]));
            i = i + 1;
        }
        r
    }

    /// Sets the extra data of a transaction.
    pub fn set_transaction_metadata(&mut self, transaction_index: TransactionIndex, extra: TransactionExtra)
        requires
            old(self).wf(),
            transaction_index.0 < old(self).transactions_view().len(),
        ensures
            final(self).wf(),
            final(self).account_keys() == old(self).account_keys(),
            final(self).account_values() == old(self).account_values(),
            final(self).transactions_view().len() == old(self).transactions_view().len(),
            forall|i: int|
                0 <= i < old(self).transactions_view().len() && i != transaction_index.0
                    ==> #[trigger] final(self).transactions_view()[i] == old(self).transactions_view()[i],
            final(self).transactions_view()[transaction_index.0 as int].spec_extra() == extra,
            final(self).transactions_view()[transaction_index.0 as int].moves_view()
                == old(self).transactions_view()[transaction_index.0 as int].moves_view(),
    {
        let ghost old_txs = self.transactions@;
        let t = transaction_index.0;
        self.transactions[t].set_extra(extra);
        proof {
            assert forall|i: int, j: int|
                0 <= i < self.transactions@.len() && 0 <= j < self.transactions@[i].moves_view().len()
                    implies move_is_valid(
                    #[trigger] self.transactions@[i].moves_view()[j],
                    self.account_keys(),
                ) by {
                assert(self.transactions@[i].moves_view() == old_txs[i].moves_view());
            }
        }
    }

    proof fn lemma_only_transaction_changed(
        &self,
        old_book: &Self,
        t: int,
    )
        requires
            old_book.wf(),
            slot_entries(self.accounts) == slot_entries(old_book.accounts),
            self.account_values@ == old_book.account_values@,
            self.transactions@.len() == old_book.transactions@.len(),
            0 <= t < self.transactions@.len(),
            forall|i: int| 0 <= i < self.transactions@.len() && i != t ==> #[trigger] self.transactions@[i]
                == old_book.transactions@[i],
            forall|j: int| 0 <= j < self.transactions@[t].moves_view().len() ==> move_is_valid(
                #[trigger] self.transactions@[t].moves_view()[j],
                self.account_keys(),
            ),
        ensures
            self.wf(),
    {
        assert(self.account_keys() == old_book.account_keys());
        assert forall|i: int, j: int|
            0 <= i < self.transactions@.len() && 0 <= j < self.transactions@[i].moves_view().len()
                implies move_is_valid(
                #[trigger] self.transactions@[i].moves_view()[j],
                self.account_keys(),
            ) by {
            if i != t {
                assert(self.transactions@[i] == old_book.transactions@[i]);
            }
        }
    }

    /// Creates a new move and inserts it into a transaction at an index.
    pub fn insert_move(
        &mut self,
        transaction_index: TransactionIndex,
        move_index: MoveIndex,
        debit_account_key: AccountKey,
        credit_account_key: AccountKey,
        sum: Sum<SumNumber>,
        extra: MoveExtra,
    )
        requires
            old(self).wf(),
            old(self).has_account(debit_account_key),
            old(self).has_account(credit_account_key),
            debit_account_key != credit_account_key,
            transaction_index.0 < old(self).transactions_view().len(),
            move_index.0 <= old(self).transactions_view()[transaction_index.0 as int].moves_view().len(),
        ensures
            final(self).wf(),
            final(self).account_keys() == old(self).account_keys(),
            final(self).account_values() == old(self).account_values(),
            final(self).transactions_view().len() == old(self).transactions_view().len(),
            forall|i: int|
                0 <= i < old(self).transactions_view().len() && i != transaction_index.0
                    ==> #[trigger] final(self).transactions_view()[i] == old(self).transactions_view()[i],
            ({
                let old_t = old(self).transactions_view()[transaction_index.0 as int];
                let new_t = final(self).transactions_view()[transaction_index.0 as int];
                let m = new_t.moves_view()[move_index.0 as int];
                &&& new_t.spec_extra() == old_t.spec_extra()
                &&& new_t.moves_view() == old_t.moves_view().insert(move_index.0 as int, m)
                &&& m.debit_key() == debit_account_key
                &&& m.credit_key() == credit_account_key
                &&& m.sum_view() == sum@
                &&& m.spec_extra() == extra
            }),
    {
        let ghost old_book = *self;
        let t = transaction_index.0;
        let m = Move::new(debit_account_key, credit_account_key, sum, extra);
        self.transactions[t].insert_move(move_index.0, m);
        proof {
            let moves = self.transactions@[t as int].moves_view();
            assert forall|j: int| 0 <= j < moves.len() implies move_is_valid(
                #[trigger] moves[j],
                self.account_keys(),
            ) by {
                let old_moves = old_book.transactions@[t as int].moves_view();
                if j < move_index.0 {
                    assert(moves[j] == old_moves[j]);
                } else if j > move_index.0 {
                    assert(moves[j] == old_moves[j - 1]);
                }
            }
            self.lemma_only_transaction_changed(&old_book, t as int);
        }
    }

    /// Sets the extra data of a move.
    pub fn set_move_metadata(
        &mut self,
        transaction_index: TransactionIndex,
        move_index: MoveIndex,
        extra: MoveExtra,
    )
        requires
            old(self).wf(),
            transaction_index.0 < old(self).transactions_view().len(),
            move_index.0 < old(self).transactions_view()[transaction_index.0 as int].moves_view().len(),
        ensures
            final(self).wf(),
            final(self).account_keys() == old(self).account_keys(),
            final(self).account_values() == old(self).account_values(),
            final(self).transactions_view().len() == old(self).transactions_view().len(),
            forall|i: int|
                0 <= i < old(self).transactions_view().len() && i != transaction_index.0
                    ==> #[trigger] final(self).transactions_view()[i] == old(self).transactions_view()[i],
            ({
                let old_t = old(self).transactions_view()[transaction_index.0 as int];
                let new_t = final(self).transactions_view()[transaction_index.0 as int];
                let old_m = old_t.moves_view()[move_index.0 as int];
                let m = new_t.moves_view()[move_index.0 as int];
                &&& new_t.spec_extra() == old_t.spec_extra()
                &&& new_t.moves_view() == old_t.moves_view().update(move_index.0 as int, m)
                &&& m.debit_key() == old_m.debit_key()
                &&& m.credit_key() == old_m.credit_key()
                &&& m.sum_view() == old_m.sum_view()
                &&& m.spec_extra() == extra
            }),
    {
        let ghost old_book = *self;
        let t = transaction_index.0;
        self.transactions[t].set_move_extra(move_index.0, extra);
        proof {
            let moves = self.transactions@[t as int].moves_view();
            let old_moves = old_book.transactions@[t as int].moves_view();
            assert(moves =~= old_moves.update(move_index.0 as int, moves[move_index.0 as int]));
            assert forall|j: int| 0 <= j < moves.len() implies move_is_valid(
                #[trigger] moves[j],
                self.account_keys(),
            ) by {
                assert(move_is_valid(old_moves[j], old_book.account_keys()));
            }
            self.lemma_only_transaction_changed(&old_book, t as int);
        }
    }

    /// Sets the sum of an existing move.
    pub fn set_move_sum(
        &mut self,
        transaction_index: TransactionIndex,
        move_index: MoveIndex,
        sum: Sum<SumNumber>,
    )
        requires
            old(self).wf(),
            transaction_index.0 < old(self).transactions_view().len(),
            move_index.0 < old(self).transactions_view()[transaction_index.0 as int].moves_view().len(),
        ensures
            final(self).wf(),
            final(self).account_keys() == old(self).account_keys(),
            final(self).account_values() == old(self).account_values(),
            final(self).transactions_view().len() == old(self).transactions_view().len(),
            forall|i: int|
                0 <= i < old(self).transactions_view().len() && i != transaction_index.0
                    ==> #[trigger] final(self).transactions_view()[i] == old(self).transactions_view()[i],
            ({
                let old_t = old(self).transactions_view()[transaction_index.0 as int];
                let new_t = final(self).transactions_view()[transaction_index.0 as int];
                let old_m = old_t.moves_view()[move_index.0 as int];
                let m = new_t.moves_view()[move_index.0 as int];
                &&& new_t.spec_extra() == old_t.spec_extra()
                &&& new_t.moves_view() == old_t.moves_view().update(move_index.0 as int, m)
                &&& m.debit_key() == old_m.debit_key()
                &&& m.credit_key() == old_m.credit_key()
                &&& m.sum_view() == sum@
                &&& m.spec_extra() == old_m.spec_extra()
            }),
    {
        let ghost old_book = *self;
        let ghost new_sum = sum@;
        let t = transaction_index.0;
        self.transactions[t].set_move_sum(move_index.0, sum);
        proof {
            let moves = self.transactions@[t as int].moves_view();
            let old_moves = old_book.transactions@[t as int].moves_view();
            assert(moves =~= old_moves.update(move_index.0 as int, moves[move_index.0 as int]));
            assert forall|j: int| 0 <= j < moves.len() implies move_is_valid(
                #[trigger] moves[j],
                self.account_keys(),
            ) by {
                assert(move_is_valid(old_moves[j], old_book.account_keys()));
            }
            self.lemma_only_transaction_changed(&old_book, t as int);
        }
    }

    /// Sets the account of one of the sides of an existing move.
    pub fn set_move_side(
        &mut self,
        transaction_index: TransactionIndex,
        move_index: MoveIndex,
        side: Side,
        account_key: AccountKey,
    )
        requires
            old(self).wf(),
            old(self).has_account(account_key),
            transaction_index.0 < old(self).transactions_view().len(),
            move_index.0 < old(self).transactions_view()[transaction_index.0 as int].moves_view().len(),
            ({
                let m = old(self).transactions_view()[transaction_index.0 as int].moves_view()[move_index.0 as int];
                match side {
                    Side::Debit => account_key != m.credit_key(),
                    Side::Credit => account_key != m.debit_key(),
                }
            }),
        ensures
            final(self).wf(),
            final(self).account_keys() == old(self).account_keys(),
            final(self).account_values() == old(self).account_values(),
            final(self).transactions_view().len() == old(self).transactions_view().len(),
            forall|i: int|
                0 <= i < old(self).transactions_view().len() && i != transaction_index.0
                    ==> #[trigger] final(self).transactions_view()[i] == old(self).transactions_view()[i],
            ({
                let old_t = old(self).transactions_view()[transaction_index.0 as int];
                let new_t = final(self).transactions_view()[transaction_index.0 as int];
                let old_m = old_t.moves_view()[move_index.0 as int];
                let m = new_t.moves_view()[move_index.0 as int];
                &&& new_t.spec_extra() == old_t.spec_extra()
                &&& new_t.moves_view() == old_t.moves_view().update(move_index.0 as int, m)
                &&& m.debit_key() == match side {
                    Side::Debit => account_key,
                    Side::Credit => old_m.debit_key(),
                }
                &&& m.credit_key() == match side {
                    Side::Debit => old_m.credit_key(),
                    Side::Credit => account_key,
                }
                &&& m.sum_view() == old_m.sum_view()
                &&& m.spec_extra() == old_m.spec_extra()
            }),
    {
        let ghost old_book = *self;
        let t = transaction_index.0;
        self.transactions[t].set_move_side_key(move_index.0, side, account_key);
        proof {
            let moves = self.transactions@[t as int].moves_view();
            let old_moves = old_book.transactions@[t as int].moves_view();
            assert(moves =~= old_moves.update(move_index.0 as int, moves[move_index.0 as int]));
            assert forall|j: int| 0 <= j < moves.len() implies move_is_valid(
                #[trigger] moves[j],
                self.account_keys(),
            ) by {
                assert(move_is_valid(old_moves[j], old_book.account_keys()));
            }
            self.lemma_only_transaction_changed(&old_book, t as int);
        }
    }

    /// Removes an existing transaction from the book.
    pub fn remove_transaction(&mut self, transaction_index: TransactionIndex)
        requires
            old(self).wf(),
            transaction_index.0 < old(self).transactions_view().len(),
        ensures
            final(self).wf(),
            final(self).account_keys() == old(self).account_keys(),
            final(self).account_values() == old(self).account_values(),
            final(self).transactions_view() == old(self).transactions_view().remove(
                transaction_index.0 as int,
            ),
    {
        let ghost old_txs = self.transactions@;
        let t = transaction_index.0;
        self.transactions.remove(t);
        proof {
            assert forall|i: int, j: int|
                0 <= i < self.transactions@.len() && 0 <= j < self.transactions@[i].moves_view().len()
                    implies move_is_valid(
                    #[trigger] self.transactions@[i].moves_view()[j],
                    self.account_keys(),
                ) by {
                if i < t {
                    assert(self.transactions@[i] == old_txs[i]);
                } else {
                    assert(self.transactions@[i] == old_txs[i + 1]);
                }
            }
        }
    }

    /// Removes an existing move from the book.
    pub fn remove_move(&mut self, transaction_index: TransactionIndex, move_index: MoveIndex)
        requires
            old(self).wf(),
            transaction_index.0 < old(self).transactions_view().len(),
            move_index.0 < old(self).transactions_view()[transaction_index.0 as int].moves_view().len(),
        ensures
            final(self).wf(),
            final(self).account_keys() == old(self).account_keys(),
            final(self).account_values() == old(self).account_values(),
            final(self).transactions_view().len() == old(self).transactions_view().len(),
            forall|i: int|
                0 <= i < old(self).transactions_view().len() && i != transaction_index.0
                    ==> #[trigger] final(self).transactions_view()[i] == old(self).transactions_view()[i],
            final(self).transactions_view()[transaction_index.0 as int].spec_extra()
                == old(self).transactions_view()[transaction_index.0 as int].spec_extra(),
            final(self).transactions_view()[transaction_index.0 as int].moves_view()
                == old(self).transactions_view()[transaction_index.0 as int].moves_view().remove(
                move_index.0 as int,
            ),
    {
        let ghost old_book = *self;
        let t = transaction_index.0;
        self.transactions[t].remove_move(move_index.0);
        proof {
            let moves = self.transactions@[t as int].moves_view();
            let old_moves = old_book.transactions@[t as int].moves_view();
            assert forall|j: int| 0 <= j < moves.len() implies move_is_valid(
                #[trigger] moves[j],
                self.account_keys(),
            ) by {
                if j < move_index.0 {
                    assert(moves[j] == old_moves[j]);
                } else {
                    assert(moves[j] == old_moves[j + 1]);
                }
            }
            self.lemma_only_transaction_changed(&old_book, t as int);
        }
    }
}

/// The moves of the first `n` transactions come first among the moves of more transactions.
pub proof fn lemma_moves_of_prefix<N, T, M>(txs: Seq<Transaction<N, T, M>>, a: int, b: int)
    requires
        0 <= a <= b <= txs.len(),
    ensures
        moves_of(txs.take(a)).len() <= moves_of(txs.take(b)).len(),
        moves_of(txs.take(b)).take(moves_of(txs.take(a)).len() as int) == moves_of(txs.take(a)),
    decreases b - a,
{
    if a < b {
        lemma_moves_of_prefix(txs, a, b - 1);
        assert(txs.take(b).drop_last() =~= txs.take(b - 1));
        let pa = moves_of(txs.take(a));
        let pb1 = moves_of(txs.take(b - 1));
        let pb = moves_of(txs.take(b));
        assert(pb == pb1 + txs.take(b).last().moves_view());
        assert(pb.take(pa.len() as int) =~= pb1.take(pa.len() as int));
    } else {
        assert(moves_of(txs.take(b)).take(moves_of(txs.take(a)).len() as int) =~= moves_of(
            txs.take(a),
        ));
    }
}

/// The moves of one more transaction are those of the first ones, then its own.
pub proof fn lemma_moves_of_step<N, T, M>(txs: Seq<Transaction<N, T, M>>, i: int)
    requires
        0 <= i < txs.len(),
    ensures
        moves_of(txs.take(i + 1)) == moves_of(txs.take(i)) + txs[i].moves_view(),
{
    assert(txs.take(i + 1).drop_last() =~= txs.take(i));
}

impl<Account, TransactionExtra, MoveExtra> Book<u64, Account, TransactionExtra, MoveExtra> {
    /// The balance model of an account at a transaction: the moves of every transaction
    /// up to and including it, applied in order.
    pub open spec fn balance_at(&self, account_key: AccountKey, transaction_index: int) -> Map<u64, int> {
        balance_after(moves_of(self.transactions_view().take(transaction_index + 1)), account_key)
    }

    /// Calculates the balance of an account at a provided transaction.
    pub fn account_balance_at_transaction(
        &self,
        account_key: AccountKey,
        transaction_index: TransactionIndex,
    ) -> (balance: Balance)
        requires
            self.wf(),
            self.has_account(account_key),
            transaction_index.0 < self.transactions_view().len(),
            balances_fit(
                moves_of(self.transactions_view().take(transaction_index.0 + 1)),
                account_key,
            ),
        ensures
            balance@ == self.balance_at(account_key, transaction_index.0 as int),
    {
        let ghost txs = self.transactions@;
        let ghost all = moves_of(txs.take(transaction_index.0 + 1));
        let mut balance = Balance::new();
        let len = self.transactions.len();
        let mut i: usize = 0;
        while i <= transaction_index.0
            invariant
                txs == self.transactions@,
                len == txs.len(),
                transaction_index.0 < txs.len(),
                i <= transaction_index.0 + 1,
                all == moves_of(txs.take(transaction_index.0 + 1)),
                balances_fit(all, account_key),
                balance@ == balance_after(moves_of(txs.take(i as int)), account_key),
            decreases transaction_index.0 + 1 - i,
        {
            let transaction = &self.transactions[i];
            let ghost done = moves_of(txs.take(i as int));
            proof {
                lemma_moves_of_step(txs, i as int);
                lemma_moves_of_prefix(txs, i as int + 1, transaction_index.0 + 1);
            }
            let n = transaction.moves_len();
            let mut j: usize = 0;
            while j < n
                invariant
                    n == transaction.moves_view().len(),
                    *transaction == txs[i as int],
                    j <= n,
                    done == moves_of(txs.take(i as int)),
                    moves_of(txs.take(i as int + 1)) == done + transaction.moves_view(),
                    moves_of(txs.take(i as int + 1)).len() <= all.len(),
                    all.take(moves_of(txs.take(i as int + 1)).len() as int) == moves_of(txs.take(i as int + 1)),
                    balances_fit(all, account_key),
                    balance@ == balance_after(done + transaction.moves_view().take(j as int), account_key),
                decreases n - j,
            {
                let m = transaction.move_at(j);
                let ghost before = done + transaction.moves_view().take(j as int);
                let ghost after = done + transaction.moves_view().take(j as int + 1);
                proof {
                    assert(after.drop_last() =~= before);
                    assert(after.last() == *m);
                    assert(all.take(after.len() as int) =~= after) by {
                        let full = moves_of(txs.take(i as int + 1));
                        assert(after =~= full.take(after.len() as int));
                    }
                    assert(balance_fits(balance_after(all.take(after.len() as int), account_key)));
                    assert(balance_fits(balance_after(after, account_key)));
                }
                if m.side_key(Side::Debit) == account_key {
                    balance.sub_assign_sum(m.sum());
                } else if m.side_key(Side::Credit) == account_key {
                    balance.add_assign_sum(m.sum());
                }
                j = j + 1;
            }
            proof {
                assert(transaction.moves_view().take(n as int) =~= transaction.moves_view());
            }
            i = i + 1;
        }
        balance
    }
}

/// The account that an inserted key reads back is the account that was inserted with it.
pub proof fn lemma_get_inserted_account<N, A, T, M>(
    old_book: Book<N, A, T, M>,
    new_book: Book<N, A, T, M>,
    key: AccountKey,
    account: A,
)
    requires
        old_book.wf(),
        !old_book.has_account(key),
        new_book.account_keys() == old_book.account_keys().push(key),
        new_book.account_values() == old_book.account_values().push(account),
    ensures
        new_book.has_account(key),
        new_book.account_of(key) == account,
{
    old_book.lemma_wf_moves_valid(0);
    let keys = new_book.account_keys();
    let n = old_book.account_keys().len() as int;
    assert(keys[n] == key);
    assert(keys.contains(key));
    let i = keys.index_of(key);
    if i != n {
        assert(old_book.account_keys()[i] == key);
        assert(old_book.account_keys().contains(key));
    }
    assert(old_book.account_keys().len() == old_book.account_values().len()) by {
        old_book.lemma_values_match_keys();
    }
}

/// Setting an account changes what its key reads back to the new account, and what every
/// other key reads back not at all.
pub proof fn lemma_get_set_account<N, A, T, M>(
    old_book: Book<N, A, T, M>,
    new_book: Book<N, A, T, M>,
    key: AccountKey,
    account: A,
    other: AccountKey,
)
    requires
        old_book.wf(),
        old_book.has_account(key),
        old_book.has_account(other),
        new_book.account_keys() == old_book.account_keys(),
        new_book.account_values() == old_book.account_values().update(
            old_book.account_keys().index_of(key),
            account,
        ),
    ensures
        new_book.account_of(key) == account,
        other != key ==> new_book.account_of(other) == old_book.account_of(other),
{
    old_book.lemma_wf_moves_valid(0);
    old_book.lemma_values_match_keys();
    let keys = old_book.account_keys();
    let i = keys.index_of(key);
    let j = keys.index_of(other);
    if other != key {
        assert(keys[i] != keys[j]);
    }
}

/// Inserting a transaction after a transaction leaves the balances at that transaction
/// as they were: a balance at a transaction depends on it and the transactions before it only.
pub proof fn lemma_later_insert_keeps_balance<T, M>(
    txs: Seq<Transaction<u64, T, M>>,
    inserted_at: int,
    inserted: Transaction<u64, T, M>,
    transaction_index: int,
    key: AccountKey,
)
    requires
        0 <= transaction_index < inserted_at <= txs.len(),
    ensures
        balance_after(moves_of(txs.insert(inserted_at, inserted).take(transaction_index + 1)), key)
            == balance_after(moves_of(txs.take(transaction_index + 1)), key),
{
    assert(txs.insert(inserted_at, inserted).take(transaction_index + 1) =~= txs.take(
        transaction_index + 1,
    ));
}

/// Removing a transaction after a transaction leaves the balances at that transaction as
/// they were.
pub proof fn lemma_later_remove_keeps_balance<T, M>(
    txs: Seq<Transaction<u64, T, M>>,
    removed_at: int,
    transaction_index: int,
    key: AccountKey,
)
    requires
        0 <= transaction_index < removed_at < txs.len(),
    ensures
        balance_after(moves_of(txs.remove(removed_at).take(transaction_index + 1)), key)
            == balance_after(moves_of(txs.take(transaction_index + 1)), key),
{
    assert(txs.remove(removed_at).take(transaction_index + 1) =~= txs.take(transaction_index + 1));
}

/// Removing the transaction that was just inserted at an index gives back the
/// transactions as they were.
pub proof fn lemma_insert_then_remove_transaction<N, T, M>(
    txs: Seq<Transaction<N, T, M>>,
    index: int,
    inserted: Transaction<N, T, M>,
)
    requires
        0 <= index <= txs.len(),
    ensures
        txs.insert(index, inserted).remove(index) == txs,
{
    assert(txs.insert(index, inserted).remove(index) =~= txs);
}

} // verus!
