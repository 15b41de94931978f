//! Accounts that money is transferred between, and their balances over time.
use vstd::prelude::*;
use crate::monetary::{Money, addable, amount_in, combined, negatable, negated};

verus! {

/// A point in time in UTC: whole seconds since the Unix epoch, then nanoseconds within
/// the second (a leap second may take the nanoseconds past one billion).
#[derive(Clone, Copy, Debug, PartialEq, Eq, Structural, PartialOrd, Ord, Hash)]
pub struct Instant {
    pub secs: i64,
    pub nanos: u32,
}

/// Whether `a` is at or before `b`.
pub open spec fn at_or_before(a: Instant, b: Instant) -> bool {
    a.secs < b.secs || (a.secs == b.secs && a.nanos <= b.nanos)
}

impl Instant {
    /// Whether this instant is at or before another.
    pub fn is_at_or_before(&self, other: &Instant) -> (r: bool)
        ensures
            r == at_or_before(*self, *other),
    {
        self.secs < other.secs || (self.secs == other.secs && self.nanos <= other.nanos)
    }
}

/// An account, identified by a number.
#[derive(PartialEq, Eq, Structural, Debug)]
pub struct Account {
    id: usize,
}

/// A transfer of money from one account to another at some time.
#[derive(Clone, Debug)]
pub struct Transaction<'a> {
    datetime: Instant,
    from: &'a Account,
    to: &'a Account,
    money: Money,
}

impl<'a> Transaction<'a> {
    /// When the transfer happens.
    pub closed spec fn spec_datetime(&self) -> Instant {
        self.datetime
    }

    /// The account that the money leaves.
    pub closed spec fn spec_from(&self) -> Account {
        *self.from
    }

    /// The account that the money reaches.
    pub closed spec fn spec_to(&self) -> Account {
        *self.to
    }

    /// The money that is transferred.
    pub closed spec fn spec_money(&self) -> Map<(Seq<char>, u8), int> {
        self.money@
    }

    /// Creates a transfer.
    pub fn new(datetime: Instant, from: &'a Account, to: &'a Account, money: Money) -> (t: Self)
        ensures
            t.spec_datetime() == datetime,
            t.spec_from() == *from,
            t.spec_to() == *to,
            t.spec_money() == money@,
    {
        Self { datetime, from, to, money }
    }

    /// When the transfer happens.
    pub fn datetime(&self) -> (d: Instant)
        ensures
            d == self.spec_datetime(),
    {
        self.datetime
    }
}

/// What a transfer does to an account's money: the money comes in if the account is the
/// receiver, and goes out if it is the sender; a transfer to oneself leaves every amount
/// of its currencies at zero.
pub open spec fn transfer_effect(t: Transaction, account: Account) -> Map<(Seq<char>, u8), int> {
    let incoming = if t.spec_to() == account {
        combined(Map::empty(), t.spec_money())
    } else {
        Map::empty()
    };
    if t.spec_from() == account {
        combined(incoming, negated(t.spec_money()))
    } else {
        incoming
    }
}

/// The money of an account after the transfers of a sequence that happen at or before
/// `datetime`, added up in order.
pub open spec fn balance_of(account: Account, datetime: Instant, ts: Seq<Transaction>) -> Map<
    (Seq<char>, u8),
    int,
>
    decreases ts.len(),
{
    if ts.len() == 0 {
        Map::empty()
    } else {
        let before = balance_of(account, datetime, ts.drop_last());
        if at_or_before(ts.last().spec_datetime(), datetime) {
            combined(before, transfer_effect(ts.last(), account))
        } else {
            before
        }
    }
}

/// Whether computing `balance_of` keeps every amount representable as a `MinorAmount`.
pub open spec fn balance_computable(account: Account, datetime: Instant, ts: Seq<Transaction>) -> bool {
    forall|k: int|
        0 <= k < ts.len() && at_or_before(#[trigger] ts[k].spec_datetime(), datetime) ==> {
            &&& (ts[k].spec_from() == account ==> negatable(ts[k].spec_money()))
            &&& addable(balance_of(account, datetime, ts.take(k)), transfer_effect(ts[k], account))
        }
}

impl Account {
    /// The account's number.
    pub closed spec fn spec_id(&self) -> usize {
        self.id
    }

    /// The account with a given number.
    pub fn from_id(id: usize) -> (a: Self)
        ensures
            a.spec_id() == id,
    {
        Self { id }
    }

    /// A transfer of money from this account to another.
    pub fn transfer_to<'a>(&'a self, datetime: Instant, to: &'a Account, money: Money) -> (t: Transaction<'a>)
        ensures
            t.spec_datetime() == datetime,
            t.spec_from() == *self,
            t.spec_to() == *to,
            t.spec_money() == money@,
    {
        Transaction::new(datetime, self, to, money)
    }

    fn transfer_money(&self, t: &Transaction) -> (m: Money)
        requires
            t.spec_from() == *self ==> negatable(t.spec_money()),
        ensures
            m@ == transfer_effect(*t, *self),
    {
        proof {
            t.money.lemma_fits();
        }
        let mut money = Money::none();
        if *t.to == *self {
            money.add_assign(t.money.clone());
        }
        if *t.from == *self {
            proof {
                assert forall|c: (Seq<char>, u8)| #[trigger] negated(t.spec_money()).contains_key(c)
                    implies crate::monetary::fits_minor(
                    crate::monetary::amount_in(money@, c) + negated(t.spec_money())[c],
                ) by {
                    assert(t.spec_money().contains_key(c));
                }
            }
            money.sub_assign(t.money.clone());
        }
        money
    }

    /// The money of this account after the given transfers that happen at or before
    /// `datetime`.
    pub fn balance(&self, datetime: Instant, transactions: &[Transaction]) -> (m: Money)
        requires
            balance_computable(*self, datetime, transactions@),
        ensures
            m@ == balance_of(*self, datetime, transactions@),
    {
        let mut total = Money::none();
        let mut i: usize = 0;
        while i < transactions.len()
            invariant
                i <= transactions@.len(),
                balance_computable(*self, datetime, transactions@),
                total@ == balance_of(*self, datetime, transactions@.take(i as int)),
            decreases transactions@.len() - i,
        {
            let t = &transactions[i];
            proof {
                assert(transactions@.take(i as int + 1).drop_last() =~= transactions@.take(i as int));
            }
            if t.datetime.is_at_or_before(&datetime) {
                proof {
                    assert(at_or_before(transactions@[i as int].spec_datetime(), datetime));
                }
                let money = self.transfer_money(t);
                total.add_assign(money);
            }
            i = i + 1;
        }
        proof {
            assert(transactions@.take(transactions@.len() as int) =~= transactions@);
        }
        total
    }
}

/// Whether a transfer is to or from an account.
pub open spec fn involves(t: Transaction, account: Account) -> bool {
    t.spec_to() == account || t.spec_from() == account
}

/// The running balance of an account along the first `n` transfers of a sequence: for each
/// transfer to or from the account, in order, its position and the money of the account at
/// its time, over all the transfers.
pub open spec fn running_entries(account: Account, ts: Seq<Transaction>, n: int) -> Seq<
    (int, Map<(Seq<char>, u8), int>),
>
    decreases n,
{
    if n <= 0 {
        Seq::empty()
    } else {
        let before = running_entries(account, ts, n - 1);
        let t = ts[n - 1];
        if involves(t, account) {
            before.push((n - 1, balance_of(account, t.spec_datetime(), ts)))
        } else {
            before
        }
    }
}

/// Whether `txs` is a possible outcome of turning each item of `items` into a transfer with `f`.
pub open spec fn transfers_of<'a, T, F: Fn(&'a T) -> Result<Transaction<'a>, E>, E>(
    f: F,
    items: Seq<&'a T>,
    txs: Seq<Transaction<'a>>,
) -> bool {
    &&& txs.len() == items.len()
    &&& forall|i: int| 0 <= i < items.len() ==> call_ensures(f, (items[i],), Ok(#[trigger] txs[i]))
}

/// Whether `e` is a possible outcome of turning the items of `items` into transfers with `f`:
/// the items before some item turn into transfers, and that item gives `e`.
pub open spec fn fails_with<'a, T, F: Fn(&'a T) -> Result<Transaction<'a>, E>, E>(
    f: F,
    items: Seq<&'a T>,
    e: E,
) -> bool {
    exists|k: int|
        0 <= k < items.len() && call_ensures(f, (items[k],), Err(e)) && (exists|txs: Seq<Transaction<'a>>|
            transfers_of(f, #[trigger] items.take(k), txs))
}

impl Account {
    fn transfers_with<'a, T, F, E>(ts: &Vec<&'a T>, f: &F) -> (r: Result<Vec<Transaction<'a>>, E>)
        where
            F: Fn(&'a T) -> Result<Transaction<'a>, E>,
        requires
            forall|i: int| 0 <= i < ts@.len() ==> call_requires(*f, (#[trigger] ts@[i],)),
        ensures
            match r {
                Ok(txs) => transfers_of(*f, ts@, txs@),
                Err(e) => fails_with(*f, ts@, e),
            },
    {
        let mut txs: Vec<Transaction<'a>> = Vec::new();
        let mut i: usize = 0;
        while i < ts.len()
            invariant
                i <= ts@.len(),
                forall|j: int| 0 <= j < ts@.len() ==> call_requires(*f, (#[trigger] ts@[j],)),
                transfers_of(*f, ts@.take(i as int), txs@),
            decreases ts@.len() - i,
        {
            match f(ts[i]) {
                Ok(t) => {
                    txs.push(t);
                    proof {
                        let items = ts@.take(i as int + 1);
                        assert forall|j: int| 0 <= j < items.len() implies call_ensures(
                            *f,
                            (items[j],),
                            Ok(#[trigger] txs@[j]),
                        ) by {
                            if j < i {
                                assert(items[j] == ts@.take(i as int)[j]);
                            }
                        }
                    }
                },
                Err(e) => {
                    proof {
                        assert(call_ensures(*f, (ts@[i as int],), Err(e)));
                        assert(transfers_of(*f, ts@.take(i as int), txs@));
                    }
                    return Err(e);
                },
            }
            i = i + 1;
        }
        proof {
            assert(ts@.take(ts@.len() as int) =~= ts@);
        }
        Ok(txs)
    }

    /// The money of this account at `datetime`, over the transfers that `f` makes of the
    /// items; the first error of `f`, if there is one.
    pub fn balance_with<'a, T, F, E>(&self, datetime: Instant, ts: Vec<&'a T>, f: F) -> (r: Result<Money, E>)
        where
            F: Fn(&'a T) -> Result<Transaction<'a>, E>,
        requires
            forall|i: int| 0 <= i < ts@.len() ==> call_requires(f, (#[trigger] ts@[i],)),
            forall|txs: Seq<Transaction<'a>>| #[trigger]
                transfers_of(f, ts@, txs) ==> balance_computable(*self, datetime, txs),
        ensures
            match r {
                Ok(m) => exists|txs: Seq<Transaction<'a>>| #[trigger]
                    transfers_of(f, ts@, txs) && m@ == balance_of(*self, datetime, txs),
                Err(e) => fails_with(f, ts@, e),
            },
    {
        match Self::transfers_with(&ts, &f) {
            Ok(txs) => {
                let m = self.balance(datetime, txs.as_slice());
                proof {
                    assert(transfers_of(f, ts@, txs@));
                }
                Ok(m)
            },
            Err(e) => Err(e),
        }
    }

    /// The running balance of this account over the transfers that `f` makes of the items:
    /// for each transfer to or from the account, in order, its item and the money of the
    /// account at its time; the first error of `f`, if there is one.
    pub fn running_balance_with<'a, T, F, E>(&'a self, ts: Vec<&'a T>, f: F) -> (r: Result<
        Vec<(&'a T, Money)>,
        E,
    >)
        where
            F: Fn(&'a T) -> Result<Transaction<'a>, E>,
        requires
            forall|i: int| 0 <= i < ts@.len() ==> call_requires(f, (#[trigger] ts@[i],)),
            forall|txs: Seq<Transaction<'a>>| #[trigger]
                transfers_of(f, ts@, txs) ==> forall|k: int|
                    0 <= k < txs.len() && involves(#[trigger] txs[k], *self) ==> balance_computable(
                        *self,
                        txs[k].spec_datetime(),
                        txs,
                    ),
        ensures
            match r {
                Ok(v) => exists|txs: Seq<Transaction<'a>>| #[trigger]
                    transfers_of(f, ts@, txs) && {
                        let entries = running_entries(*self, txs, txs.len() as int);
                        &&& v@.len() == entries.len()
                        &&& forall|j: int|
                            0 <= j < v@.len() ==> (#[trigger] v@[j]).0 == ts@[entries[j].0] && v@[j].1@
                                == entries[j].1
                    },
                Err(e) => fails_with(f, ts@, e),
            },
    {
        match Self::transfers_with(&ts, &f) {
            Ok(txs) => {
                let ghost all = txs@;
                proof {
                    assert(transfers_of(f, ts@, all));
                }
                let mut v: Vec<(&'a T, Money)> = Vec::new();
                let mut i: usize = 0;
                while i < txs.len()
                    invariant
                        all == txs@,
                        all.len() == ts@.len(),
                        i <= all.len(),
                        forall|k: int|
                            0 <= k < all.len() && involves(#[trigger] all[k], *self) ==> balance_computable(
                                *self,
                                all[k].spec_datetime(),
                                all,
                            ),
                        v@.len() == running_entries(*self, all, i as int).len(),
                        forall|j: int|
                            0 <= j < v@.len() ==> (#[trigger] v@[j]).0 == ts@[running_entries(
                                *self,
                                all,
                                i as int,
                            )[j].0] && v@[j].1@ == running_entries(*self, all, i as int)[j].1,
                        forall|j: int|
                            0 <= j < running_entries(*self, all, i as int).len() ==> 0 <= (
                            #[trigger] running_entries(*self, all, i as int)[j]).0 < i,
                    decreases all.len() - i,
                {
                    let t = &txs[i];
                    if *t.to == *self || *t.from == *self {
                        proof {
                            assert(involves(all[i as int], *self));
                        }
                        let m = self.balance(t.datetime, txs.as_slice());
                        v.push((ts[i], m));
                    }
                    i = i + 1;
                }
                Ok(v)
            },
            Err(e) => Err(e),
        }
    }
}

/// A transfer moves money from one account to another: what it takes out of the sender
/// it puts into the receiver, so the two changes add up to zero in every currency.
pub proof fn lemma_transfer_moves_money(t: Transaction, sender: Account, receiver: Account)
    requires
        t.spec_from() == sender,
        t.spec_to() == receiver,
        sender != receiver,
    ensures
        transfer_effect(t, receiver) =~= t.spec_money(),
        transfer_effect(t, sender) =~= negated(t.spec_money()),
        forall|c: (Seq<char>, u8)| #[trigger]
            combined(transfer_effect(t, sender), transfer_effect(t, receiver)).contains_key(c)
                ==> combined(transfer_effect(t, sender), transfer_effect(t, receiver))[c] == 0,
{
}

/// A transfer from an account to itself leaves every amount of its currencies at zero.
pub proof fn lemma_transfer_to_self(t: Transaction, account: Account)
    requires
        t.spec_from() == account,
        t.spec_to() == account,
    ensures
        transfer_effect(t, account).dom() == t.spec_money().dom(),
        forall|c: (Seq<char>, u8)| #[trigger] transfer_effect(t, account).contains_key(c)
            ==> transfer_effect(t, account)[c] == 0,
{
    assert(transfer_effect(t, account).dom() =~= t.spec_money().dom());
}

/// A transfer between two other accounts leaves an account's money as it is.
pub proof fn lemma_transfer_elsewhere(t: Transaction, account: Account)
    requires
        !involves(t, account),
    ensures
        transfer_effect(t, account) == Map::<(Seq<char>, u8), int>::empty(),
{
}

/// The sum, over a sequence of transfers, of what those at or before `datetime` do to the
/// amount of a currency in an account's money.
pub open spec fn effects_added(
    account: Account,
    datetime: Instant,
    ts: Seq<Transaction>,
    c: (Seq<char>, u8),
) -> int
    decreases ts.len(),
{
    if ts.len() == 0 {
        0
    } else {
        effects_added(account, datetime, ts.drop_last(), c) + if at_or_before(
            ts.last().spec_datetime(),
            datetime,
        ) {
            amount_in(transfer_effect(ts.last(), account), c)
        } else {
            0
        }
    }
}

/// An account's balance counts every transfer at or before the date, wherever it stands in
/// the list and whatever the dates of the transfers before it, and no other: one more
/// transfer at or before the date adds its effect, one after the date changes nothing. So
/// each currency's amount is the sum of the effects of the transfers at or before the date.
pub proof fn lemma_balance_counts_each_transfer(
    account: Account,
    datetime: Instant,
    ts: Seq<Transaction>,
    t: Transaction,
    c: (Seq<char>, u8),
)
    ensures
        at_or_before(t.spec_datetime(), datetime) ==> balance_of(account, datetime, ts.push(t))
            == combined(balance_of(account, datetime, ts), transfer_effect(t, account)),
        !at_or_before(t.spec_datetime(), datetime) ==> balance_of(account, datetime, ts.push(t))
            == balance_of(account, datetime, ts),
        amount_in(balance_of(account, datetime, ts), c) == effects_added(account, datetime, ts, c),
    decreases ts.len(),
{
    assert(ts.push(t).drop_last() =~= ts);
    if ts.len() > 0 {
        lemma_balance_counts_each_transfer(account, datetime, ts.drop_last(), ts.last(), c);
        assert(ts.drop_last().push(ts.last()) =~= ts);
    }
}

/// The running balance has one entry for every transfer to or from the account among the
/// first `n`, and no other, in the order of the transfers; each entry holds the transfer's
/// position and the account's money at the transfer's time, over all the transfers.
pub proof fn lemma_running_entries(account: Account, ts: Seq<Transaction>, n: int)
    requires
        0 <= n <= ts.len(),
    ensures
        forall|j: int|
            0 <= j < running_entries(account, ts, n).len() ==> {
                let e = #[trigger] running_entries(account, ts, n)[j];
                &&& 0 <= e.0 < n
                &&& involves(ts[e.0], account)
                &&& e.1 == balance_of(account, ts[e.0].spec_datetime(), ts)
            },
        forall|i: int, j: int|
            0 <= i < j < running_entries(account, ts, n).len() ==> (#[trigger] running_entries(
                account,
                ts,
                n,
            )[i]).0 < (#[trigger] running_entries(account, ts, n)[j]).0,
        forall|k: int|
            0 <= k < n && involves(#[trigger] ts[k], account) ==> exists|j: int|
                0 <= j < running_entries(account, ts, n).len() && running_entries(account, ts, n)[j].0
                    == k,
    decreases n,
{
    if n > 0 {
        lemma_running_entries(account, ts, n - 1);
        let before = running_entries(account, ts, n - 1);
        let now = running_entries(account, ts, n);
        assert forall|k: int| 0 <= k < n && involves(#[trigger] ts[k], account) implies exists|j: int|
            0 <= j < now.len() && now[j].0 == k by {
            if k < n - 1 {
                let j = choose|j: int| 0 <= j < before.len() && before[j].0 == k;
                assert(now[j] == before[j]);
            } else {
                assert(now[before.len() as int].0 == k);
            }
        }
        assert forall|i: int, j: int| 0 <= i < j < now.len() implies (#[trigger] now[i]).0 < (
        #[trigger] now[j]).0 by {
            assert(now[i] == before[i]);
            if j < before.len() {
                assert(now[j] == before[j]);
            }
        }
        assert forall|j: int| 0 <= j < now.len() implies {
            let e = #[trigger] now[j];
            &&& 0 <= e.0 < n
            &&& involves(ts[e.0], account)
            &&& e.1 == balance_of(account, ts[e.0].spec_datetime(), ts)
        } by {
            if j < before.len() {
                assert(now[j] == before[j]);
            }
        }
    }
}

} // verus!
