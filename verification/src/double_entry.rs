//! Double entry: every move takes out of one account exactly what it puts into another,
//! so the balances of all accounts of a book add up to nothing, unit by unit.
use vstd::prelude::*;
use crate::balance::{amount_of, moved_sum};
use crate::book::{AccountKey, Book, balance_after, move_is_valid, moves_of};
use crate::move_::Move;
use crate::transaction::Transaction;

verus! {

/// The amount of a unit in a sum model; an absent unit counts as nothing.
pub open spec fn sum_amount(s: Map<u64, u64>, unit: u64) -> int {
    if s.contains_key(unit) {
        s[unit] as int
    } else {
        0
    }
}

/// How a move changes the amount of a unit in an account.
pub open spec fn move_delta<M>(m: Move<u64, M>, key: AccountKey, unit: u64) -> int {
    if m.debit_key() == key {
        -sum_amount(m.sum_view(), unit)
    } else if m.credit_key() == key {
        sum_amount(m.sum_view(), unit)
    } else {
        0
    }
}

/// How a move changes the amounts of a unit in the accounts of `keys`, all together.
pub open spec fn move_delta_total<M>(m: Move<u64, M>, keys: Seq<AccountKey>, unit: u64) -> int
    decreases keys.len(),
{
    if keys.len() == 0 {
        0
    } else {
        move_delta_total(m, keys.drop_last(), unit) + move_delta(m, keys.last(), unit)
    }
}

/// The amounts of a unit in the accounts of `keys` after a sequence of moves, all together.
pub open spec fn total_amount<M>(keys: Seq<AccountKey>, moves: Seq<Move<u64, M>>, unit: u64) -> int
    decreases keys.len(),
{
    if keys.len() == 0 {
        0
    } else {
        total_amount(keys.drop_last(), moves, unit) + amount_of(
            balance_after(moves, keys.last()),
            unit,
        )
    }
}

/// A move changes the amount of a unit in an account by what it takes out of the
/// account or puts into it.
pub proof fn lemma_balance_after_push<M>(
    moves: Seq<Move<u64, M>>,
    m: Move<u64, M>,
    key: AccountKey,
    unit: u64,
)
    ensures
        amount_of(balance_after(moves.push(m), key), unit) == amount_of(
            balance_after(moves, key),
            unit,
        ) + move_delta(m, key, unit),
{
    assert(moves.push(m).drop_last() =~= moves);
}

proof fn lemma_delta_total<M>(m: Move<u64, M>, keys: Seq<AccountKey>, unit: u64)
    requires
        keys.no_duplicates(),
        m.debit_key() != m.credit_key(),
    ensures
        move_delta_total(m, keys, unit) == (if keys.contains(m.credit_key()) {
            sum_amount(m.sum_view(), unit)
        } else {
            0
        }) - (if keys.contains(m.debit_key()) {
            sum_amount(m.sum_view(), unit)
        } else {
            0
        }),
    decreases keys.len(),
{
    if keys.len() > 0 {
        let rest = keys.drop_last();
        assert(rest.no_duplicates());
        lemma_delta_total(m, rest, unit);
        let k = keys.last();
        assert(!rest.contains(k)) by {
            if rest.contains(k) {
                let i = choose|i: int| 0 <= i < rest.len() && rest[i] == k;
                assert(keys[i] == keys[keys.len() - 1]);
            }
        }
        assert forall|x: AccountKey| keys.contains(x) <==> rest.contains(x) || x == k by {
            if keys.contains(x) {
                let i = choose|i: int| 0 <= i < keys.len() && keys[i] == x;
                if i < rest.len() {
                    assert(rest[i] == x);
                }
            }
            if rest.contains(x) {
                let i = choose|i: int| 0 <= i < rest.len() && rest[i] == x;
                assert(keys[i] == x);
            }
            if x == k {
                assert(keys[keys.len() - 1] == x);
            }
        }
    }
}

proof fn lemma_total_push<M>(
    keys: Seq<AccountKey>,
    moves: Seq<Move<u64, M>>,
    m: Move<u64, M>,
    unit: u64,
)
    ensures
        total_amount(keys, moves.push(m), unit) == total_amount(keys, moves, unit)
            + move_delta_total(m, keys, unit),
    decreases keys.len(),
{
    if keys.len() > 0 {
        lemma_total_push(keys.drop_last(), moves, m, unit);
        lemma_balance_after_push(moves, m, keys.last(), unit);
    }
}

/// Double entry: after any sequence of moves, each between two different accounts of
/// `keys`, the amounts of every unit in the accounts of `keys` add up to zero.
pub proof fn lemma_moves_balance<M>(keys: Seq<AccountKey>, moves: Seq<Move<u64, M>>, unit: u64)
    requires
        keys.no_duplicates(),
        forall|i: int| 0 <= i < moves.len() ==> move_is_valid(#[trigger] moves[i], keys),
    ensures
        total_amount(keys, moves, unit) == 0,
    decreases moves.len(),
{
    if moves.len() == 0 {
        lemma_total_empty(keys, moves, unit);
    } else {
        let rest = moves.drop_last();
        assert forall|i: int| 0 <= i < rest.len() implies move_is_valid(#[trigger] rest[i], keys) by {
            assert(rest[i] == moves[i]);
        }
        lemma_moves_balance(keys, rest, unit);
        let m = moves.last();
        assert(move_is_valid(moves[moves.len() - 1], keys));
        assert(rest.push(m) =~= moves);
        lemma_total_push(keys, rest, m, unit);
        lemma_delta_total(m, keys, unit);
    }
}

proof fn lemma_total_empty<M>(keys: Seq<AccountKey>, moves: Seq<Move<u64, M>>, unit: u64)
    requires
        moves.len() == 0,
    ensures
        total_amount(keys, moves, unit) == 0,
    decreases keys.len(),
{
    if keys.len() > 0 {
        lemma_total_empty(keys.drop_last(), moves, unit);
    }
}

pub proof fn lemma_moves_of_valid<N, T, M>(txs: Seq<crate::transaction::Transaction<N, T, M>>, keys: Seq<AccountKey>)
    requires
        forall|i: int, j: int|
            0 <= i < txs.len() && 0 <= j < txs[i].moves_view().len() ==> move_is_valid(
                #[trigger] txs[i].moves_view()[j],
                keys,
            ),
    ensures
        forall|k: int| 0 <= k < moves_of(txs).len() ==> move_is_valid(#[trigger] moves_of(txs)[k], keys),
    decreases txs.len(),
{
    if txs.len() > 0 {
        let rest = txs.drop_last();
        assert forall|i: int, j: int|
            0 <= i < rest.len() && 0 <= j < rest[i].moves_view().len() implies move_is_valid(
            #[trigger] rest[i].moves_view()[j],
            keys,
        ) by {
            assert(rest[i] == txs[i]);
        }
        lemma_moves_of_valid(rest, keys);
        let last = txs.last().moves_view();
        let all = moves_of(txs);
        let before = moves_of(rest);
        assert forall|k: int| 0 <= k < all.len() implies move_is_valid(#[trigger] all[k], keys) by {
            if k < before.len() {
                assert(all[k] == before[k]);
            } else {
                assert(all[k] == last[k - before.len()]);
                assert(move_is_valid(txs[txs.len() - 1].moves_view()[k - before.len()], keys));
            }
        }
    }
}

impl<Account, TransactionExtra, MoveExtra> Book<u64, Account, TransactionExtra, MoveExtra> {
    /// The amounts of a unit in all accounts of the book at a transaction, added up:
    /// the sum, over the account keys, of `amount_of(self.balance_at(key, transaction_index), unit)`.
    pub open spec fn total_at(&self, transaction_index: int, unit: u64) -> int {
        total_amount(
            self.account_keys(),
            moves_of(self.transactions_view().take(transaction_index + 1)),
            unit,
        )
    }

    /// The book is balanced: at every transaction, the balances of all its accounts add
    /// up to zero in every unit. No amount comes from thin air, and none disappears.
    pub proof fn lemma_book_is_balanced(&self, transaction_index: int, unit: u64)
        requires
            self.wf(),
            0 <= transaction_index < self.transactions_view().len(),
        ensures
            self.total_at(transaction_index, unit) == 0,
    {
        self.lemma_wf_moves_valid(transaction_index + 1);
        lemma_moves_balance(
            self.account_keys(),
            moves_of(self.transactions_view().take(transaction_index + 1)),
            unit,
        );
    }
}

/// The sum, over a sequence of moves, of how each changes the amount of a unit in an account.
pub open spec fn moves_delta<M>(moves: Seq<Move<u64, M>>, key: AccountKey, unit: u64) -> int
    decreases moves.len(),
{
    if moves.len() == 0 {
        0
    } else {
        moves_delta(moves.drop_last(), key, unit) + move_delta(moves.last(), key, unit)
    }
}

/// The sum, over a sequence of transactions, of how every move of each changes the amount
/// of a unit in an account.
pub open spec fn transactions_delta<T, M>(
    txs: Seq<Transaction<u64, T, M>>,
    key: AccountKey,
    unit: u64,
) -> int
    decreases txs.len(),
{
    if txs.len() == 0 {
        0
    } else {
        transactions_delta(txs.drop_last(), key, unit) + moves_delta(
            txs.last().moves_view(),
            key,
            unit,
        )
    }
}

/// Whether a move goes out of or into an account and moves some of a unit.
pub open spec fn touches<M>(m: Move<u64, M>, key: AccountKey, unit: u64) -> bool {
    (m.debit_key() == key || m.credit_key() == key) && m.sum_view().contains_key(unit)
}

proof fn lemma_balance_after_amounts<M>(moves: Seq<Move<u64, M>>, key: AccountKey, unit: u64)
    ensures
        amount_of(balance_after(moves, key), unit) == moves_delta(moves, key, unit),
        balance_after(moves, key).contains_key(unit) <==> exists|i: int|
            0 <= i < moves.len() && touches(#[trigger] moves[i], key, unit),
    decreases moves.len(),
{
    if moves.len() > 0 {
        let rest = moves.drop_last();
        let m = moves.last();
        lemma_balance_after_amounts(rest, key, unit);
        assert(rest.push(m) =~= moves);
        lemma_balance_after_push(rest, m, key, unit);
        crate::balance::lemma_moved_sum_amounts(balance_after(rest, key), m.sum_view(), unit);
        if balance_after(moves, key).contains_key(unit) {
            if !touches(m, key, unit) {
                let i = choose|i: int| 0 <= i < rest.len() && touches(#[trigger] rest[i], key, unit);
                assert(moves[i] == rest[i]);
            } else {
                assert(touches(moves[moves.len() - 1], key, unit));
            }
        }
        if exists|i: int| 0 <= i < moves.len() && touches(#[trigger] moves[i], key, unit) {
            let i = choose|i: int| 0 <= i < moves.len() && touches(#[trigger] moves[i], key, unit);
            if i < rest.len() {
                assert(rest[i] == moves[i]);
            }
        }
    }
}

proof fn lemma_moves_delta_concat<M>(a: Seq<Move<u64, M>>, b: Seq<Move<u64, M>>, key: AccountKey, unit: u64)
    ensures
        moves_delta(a + b, key, unit) == moves_delta(a, key, unit) + moves_delta(b, key, unit),
    decreases b.len(),
{
    if b.len() == 0 {
        assert(a + b =~= a);
    } else {
        lemma_moves_delta_concat(a, b.drop_last(), key, unit);
        assert((a + b).drop_last() =~= a + b.drop_last());
    }
}

proof fn lemma_moves_of_delta<T, M>(txs: Seq<Transaction<u64, T, M>>, key: AccountKey, unit: u64)
    ensures
        moves_delta(moves_of(txs), key, unit) == transactions_delta(txs, key, unit),
    decreases txs.len(),
{
    if txs.len() > 0 {
        lemma_moves_of_delta(txs.drop_last(), key, unit);
        lemma_moves_delta_concat(moves_of(txs.drop_last()), txs.last().moves_view(), key, unit);
    }
}

impl<Account, TransactionExtra, MoveExtra> Book<u64, Account, TransactionExtra, MoveExtra> {
    /// The balance of an account at a transaction counts every move of every transaction up
    /// to and including it: the amount of each unit is the sum, over all those moves, of what
    /// each takes out of the account (as a debit) or puts into it (as a credit); and a unit is
    /// in the balance exactly when one of those moves goes out of or into the account with it.
    pub proof fn lemma_balance_counts_every_move(
        &self,
        key: AccountKey,
        transaction_index: int,
        unit: u64,
    )
        requires
            0 <= transaction_index < self.transactions_view().len(),
        ensures
            amount_of(self.balance_at(key, transaction_index), unit) == transactions_delta(
                self.transactions_view().take(transaction_index + 1),
                key,
                unit,
            ),
            self.balance_at(key, transaction_index).contains_key(unit) <==> exists|j: int, l: int|
                0 <= j <= transaction_index && 0 <= l < self.transactions_view()[j].moves_view().len()
                    && touches(#[trigger] self.transactions_view()[j].moves_view()[l], key, unit),
    {
        let txs = self.transactions_view().take(transaction_index + 1);
        let moves = moves_of(txs);
        lemma_balance_after_amounts(moves, key, unit);
        lemma_moves_of_delta(txs, key, unit);
        lemma_moves_of_position(txs, key, unit);
        let all = self.transactions_view();
        if exists|j: int, l: int|
            0 <= j < txs.len() && 0 <= l < txs[j].moves_view().len() && touches(
                #[trigger] txs[j].moves_view()[l],
                key,
                unit,
            ) {
            let (j, l) = choose|j: int, l: int|
                0 <= j < txs.len() && 0 <= l < txs[j].moves_view().len() && touches(
                    #[trigger] txs[j].moves_view()[l],
                    key,
                    unit,
                );
            assert(txs[j] == all[j]);
            assert(touches(all[j].moves_view()[l], key, unit));
        }
        if exists|j: int, l: int|
            0 <= j <= transaction_index && 0 <= l < all[j].moves_view().len() && touches(
                #[trigger] all[j].moves_view()[l],
                key,
                unit,
            ) {
            let (j, l) = choose|j: int, l: int|
                0 <= j <= transaction_index && 0 <= l < all[j].moves_view().len() && touches(
                    #[trigger] all[j].moves_view()[l],
                    key,
                    unit,
                );
            assert(txs[j] == all[j]);
            assert(touches(txs[j].moves_view()[l], key, unit));
        }
    }
}

proof fn lemma_moves_of_position<T, M>(txs: Seq<Transaction<u64, T, M>>, key: AccountKey, unit: u64)
    ensures
        (exists|i: int| 0 <= i < moves_of(txs).len() && touches(#[trigger] moves_of(txs)[i], key, unit))
            <==> exists|j: int, l: int|
            0 <= j < txs.len() && 0 <= l < txs[j].moves_view().len() && touches(
                #[trigger] txs[j].moves_view()[l],
                key,
                unit,
            ),
    decreases txs.len(),
{
    if txs.len() > 0 {
        let rest = txs.drop_last();
        let last = txs.last().moves_view();
        lemma_moves_of_position(rest, key, unit);
        let all = moves_of(txs);
        let before = moves_of(rest);
        if exists|i: int| 0 <= i < all.len() && touches(#[trigger] all[i], key, unit) {
            let i = choose|i: int| 0 <= i < all.len() && touches(#[trigger] all[i], key, unit);
            if i < before.len() {
                assert(all[i] == before[i]);
                let (j, l) = choose|j: int, l: int|
                    0 <= j < rest.len() && 0 <= l < rest[j].moves_view().len() && touches(
                        #[trigger] rest[j].moves_view()[l],
                        key,
                        unit,
                    );
                assert(txs[j] == rest[j]);
            } else {
                let l = i - before.len();
                assert(all[i] == last[l]);
                assert(txs[txs.len() - 1].moves_view()[l] == last[l]);
            }
        }
        if exists|j: int, l: int|
            0 <= j < txs.len() && 0 <= l < txs[j].moves_view().len() && touches(
                #[trigger] txs[j].moves_view()[l],
                key,
                unit,
            ) {
            let (j, l) = choose|j: int, l: int|
                0 <= j < txs.len() && 0 <= l < txs[j].moves_view().len() && touches(
                    #[trigger] txs[j].moves_view()[l],
                    key,
                    unit,
                );
            if j < rest.len() {
                assert(rest[j] == txs[j]);
                assert(touches(rest[j].moves_view()[l], key, unit));
                let i = choose|i: int| 0 <= i < before.len() && touches(#[trigger] before[i], key, unit);
                assert(all[i] == before[i]);
            } else {
                let i = before.len() + l;
                assert(all[i] == last[l]);
            }
        }
    }
}

} // verus!
