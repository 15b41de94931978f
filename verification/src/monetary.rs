//! Money of several currencies at once.
use vstd::prelude::*;

verus! {

/// An amount in a currency's minor unit (such as cents).
pub type MinorAmount = i64;

/// An amount in a currency's major unit (such as dollars).
pub type MajorAmount = MinorAmount;

/// A currency: its code, and how many of its minor units make one major unit.
#[derive(Debug, Eq, Hash)]
pub struct Currency {
    code: String,
    minor_to_major: u8,
}

impl View for Currency {
    type V = (Seq<char>, u8);

    closed spec fn view(&self) -> (Seq<char>, u8) {
        (self.code@, self.minor_to_major)
    }
}

impl PartialEq for Currency {
    fn eq(&self, other: &Self) -> (r: bool) {
        self.code == other.code && self.minor_to_major == other.minor_to_major
    }
}

impl vstd::std_specs::cmp::PartialEqSpecImpl for Currency {
    open spec fn obeys_eq_spec() -> bool {
        true
    }

    open spec fn eq_spec(&self, other: &Currency) -> bool {
        self@ == other@
    }
}

impl Clone for Currency {
    fn clone(&self) -> (c: Self)
        ensures
            c@ == self@,
    {
        Currency { code: self.code.clone(), minor_to_major: self.minor_to_major }
    }
}

impl Currency {
    /// Creates a currency.
    pub fn new(code: &str, minor_to_major: u8) -> (c: Self)
        ensures
            c@ == (code@, minor_to_major),
    {
        Self { code: code.to_owned(), minor_to_major }
    }

    /// Money of this currency, given in major units.
    pub fn of_major(&self, amount: MajorAmount) -> (m: Money)
        requires
            countable(amount as int, 0, self@.1 as int),
        ensures
            m@ == Map::<(Seq<char>, u8), int>::empty().insert(self@, amount * self@.1),
    {
        self.of(amount, 0)
    }

    /// Money of this currency, given in minor units.
    pub fn of_minor(&self, amount: MinorAmount) -> (m: Money)
        ensures
            m@ == Map::<(Seq<char>, u8), int>::empty().insert(self@, amount as int),
    {
        Money::none().add_entry((self.clone(), amount))
    }

    /// Money of this currency, given in major units and minor units.
    pub fn of(&self, major_amount: MajorAmount, minor_amount: MinorAmount) -> (m: Money)
        requires
            countable(major_amount as int, minor_amount as int, self@.1 as int),
        ensures
            m@ == Map::<(Seq<char>, u8), int>::empty().insert(
                self@,
                major_amount * self@.1 + minor_amount,
            ),
    {
        self.of_minor(major_amount * self.minor_to_major as MinorAmount + minor_amount)
    }
}

/// The Thai baht: 100 satang make one baht.
#[allow(non_snake_case)]
pub fn THB() -> (c: Currency)
    ensures
        c@ == ("THB"@, 100u8),
{
    Currency::new("THB", 100)
}

/// Whether counting major and minor units in minor units stays within `MinorAmount`,
/// at its intermediate step too.
pub open spec fn countable(major_amount: int, minor_amount: int, minor_to_major: int) -> bool {
    &&& fits_minor(major_amount * minor_to_major)
    &&& fits_minor(major_amount * minor_to_major + minor_amount)
}

/// The amount of a currency in a money model; an absent currency holds nothing.
pub open spec fn amount_in(m: Map<(Seq<char>, u8), int>, c: (Seq<char>, u8)) -> int {
    if m.contains_key(c) {
        m[c]
    } else {
        0
    }
}

/// Two money models added currency by currency; every currency of either is present.
pub open spec fn combined(a: Map<(Seq<char>, u8), int>, b: Map<(Seq<char>, u8), int>) -> Map<
    (Seq<char>, u8),
    int,
> {
    Map::new(
        |c: (Seq<char>, u8)| a.contains_key(c) || b.contains_key(c),
        |c: (Seq<char>, u8)| amount_in(a, c) + amount_in(b, c),
    )
}

/// A money model with every amount's sign flipped.
pub open spec fn negated(a: Map<(Seq<char>, u8), int>) -> Map<(Seq<char>, u8), int> {
    a.map_values(|v: int| -v)
}

/// Whether an amount is representable as a `MinorAmount`.
pub open spec fn fits_minor(x: int) -> bool {
    i64::MIN <= x <= i64::MAX
}

/// Whether adding two money models keeps every amount representable.
pub open spec fn addable(a: Map<(Seq<char>, u8), int>, b: Map<(Seq<char>, u8), int>) -> bool {
    forall|c: (Seq<char>, u8)| #[trigger] b.contains_key(c) ==> fits_minor(amount_in(a, c) + b[c])
}

/// Whether no amount of a money model is the one whose negation overflows.
pub open spec fn negatable(a: Map<(Seq<char>, u8), int>) -> bool {
    forall|c: (Seq<char>, u8)| #[trigger] a.contains_key(c) ==> a[c] != i64::MIN
}

/// Amounts of money in any number of currencies.
///
/// The amounts are held as a list of entries, at most one per currency, rather than in a
/// hash map: a currency is keyed by its code, a `String`, and the hash map's contract is
/// only of use for keys whose hashing and equality follow vstd's key model, which a
/// `String`-keyed struct does not establish. The list's view is the same map from
/// currency to amount, and `==` compares those maps.
#[derive(Debug, Eq)]
pub struct Money {
    amounts: Vec<(Currency, MinorAmount)>,
}

impl Money {
    /// Each currency has at most one entry.
    #[verifier::type_invariant]
    closed spec fn distinct_currencies(self) -> bool {
        forall|i: int, j: int|
            0 <= i < j < self.amounts@.len() ==> (#[trigger] self.amounts@[i]).0@ != (
            #[trigger] self.amounts@[j]).0@
    }

    closed spec fn holds(self, c: (Seq<char>, u8)) -> bool {
        exists|i: int| 0 <= i < self.amounts@.len() && (#[trigger] self.amounts@[i]).0@ == c
    }

    closed spec fn entry_index(self, c: (Seq<char>, u8)) -> int {
        choose|i: int| 0 <= i < self.amounts@.len() && (#[trigger] self.amounts@[i]).0@ == c
    }
}

impl View for Money {
    type V = Map<(Seq<char>, u8), int>;

    closed spec fn view(&self) -> Map<(Seq<char>, u8), int> {
        Map::new(
            |c: (Seq<char>, u8)| self.holds(c),
            |c: (Seq<char>, u8)| self.amounts@[self.entry_index(c)].1 as int,
        )
    }
}

impl Money {
    proof fn lemma_entry(&self, i: int)
        requires
            self.distinct_currencies(),
            0 <= i < self.amounts@.len(),
        ensures
            self@.contains_key(self.amounts@[i].0@),
            self@[self.amounts@[i].0@] == self.amounts@[i].1 as int,
    {
        let c = self.amounts@[i].0@;
        assert(self.holds(c));
        let j = self.entry_index(c);
        if j != i {
            if i < j {
                assert(self.amounts@[i].0@ != self.amounts@[j].0@);
            } else {
                assert(self.amounts@[j].0@ != self.amounts@[i].0@);
            }
        }
    }

    proof fn lemma_set_amount(old_money: Money, new_money: Money, i: int, v: MinorAmount)
        requires
            old_money.distinct_currencies(),
            0 <= i < old_money.amounts@.len(),
            new_money.amounts@ == old_money.amounts@.update(i, (old_money.amounts@[i].0, v)),
        ensures
            new_money.distinct_currencies(),
            new_money@ == old_money@.insert(old_money.amounts@[i].0@, v as int),
    {
        let c = old_money.amounts@[i].0@;
        assert forall|a: int, b: int|
            0 <= a < b < new_money.amounts@.len() implies (#[trigger] new_money.amounts@[a]).0@ != (
            #[trigger] new_money.amounts@[b]).0@ by {
            assert(old_money.amounts@[a].0@ != old_money.amounts@[b].0@);
        }
        assert forall|d: (Seq<char>, u8)| new_money.holds(d) == (old_money.holds(d)) by {
            if new_money.holds(d) {
                let k = choose|k: int| 0 <= k < new_money.amounts@.len() && (#[trigger] new_money.amounts@[k]).0@ == d;
                assert(old_money.amounts@[k].0@ == d);
            }
            if old_money.holds(d) {
                let k = choose|k: int| 0 <= k < old_money.amounts@.len() && (#[trigger] old_money.amounts@[k]).0@ == d;
                assert(new_money.amounts@[k].0@ == d);
            }
        }
        old_money.lemma_entry(i);
        assert forall|d: (Seq<char>, u8)| #[trigger] new_money@.contains_key(d) implies new_money@[d]
            == old_money@.insert(c, v as int)[d] by {
            let k = new_money.entry_index(d);
            new_money.lemma_entry(k);
            if k != i {
                old_money.lemma_entry(k);
            }
        }
        assert(new_money@ =~= old_money@.insert(c, v as int));
    }

    proof fn lemma_push(old_money: Money, new_money: Money, currency: Currency, v: MinorAmount)
        requires
            old_money.distinct_currencies(),
            !old_money@.contains_key(currency@),
            new_money.amounts@ == old_money.amounts@.push((currency, v)),
        ensures
            new_money.distinct_currencies(),
            new_money@ == old_money@.insert(currency@, v as int),
    {
        let n = old_money.amounts@.len() as int;
        assert forall|a: int, b: int|
            0 <= a < b < new_money.amounts@.len() implies (#[trigger] new_money.amounts@[a]).0@ != (
            #[trigger] new_money.amounts@[b]).0@ by {
            if b == n {
                if new_money.amounts@[a].0@ == currency@ {
                    assert(old_money.amounts@[a].0@ == currency@);
                    assert(old_money.holds(currency@));
                }
            } else {
                assert(old_money.amounts@[a].0@ != old_money.amounts@[b].0@);
            }
        }
        assert forall|d: (Seq<char>, u8)| new_money.holds(d) == (old_money.holds(d) || d == currency@) by {
            if new_money.holds(d) {
                let k = choose|k: int| 0 <= k < new_money.amounts@.len() && (#[trigger] new_money.amounts@[k]).0@ == d;
                if k < n {
                    assert(old_money.amounts@[k].0@ == d);
                }
            }
            if old_money.holds(d) {
                let k = choose|k: int| 0 <= k < old_money.amounts@.len() && (#[trigger] old_money.amounts@[k]).0@ == d;
                assert(new_money.amounts@[k].0@ == d);
            }
            if d == currency@ {
                assert(new_money.amounts@[n].0@ == d);
            }
        }
        new_money.lemma_entry(n);
        assert forall|d: (Seq<char>, u8)| #[trigger] new_money@.contains_key(d) implies new_money@[d]
            == old_money@.insert(currency@, v as int)[d] by {
            let k = new_money.entry_index(d);
            new_money.lemma_entry(k);
            if k != n {
                old_money.lemma_entry(k);
            }
        }
        assert(new_money@ =~= old_money@.insert(currency@, v as int));
    }

    /// Adds an amount of a currency.
    pub fn add_assign_entry(&mut self, entry: (Currency, MinorAmount))
        requires
            fits_minor(amount_in(old(self)@, entry.0@) + entry.1),
        ensures
            final(self)@ == old(self)@.insert(entry.0@, amount_in(old(self)@, entry.0@) + entry.1),
    {
        proof {
            use_type_invariant(&*self);
        }
        let ghost old_money = *self;
        let (currency, amount) = entry;
        match self.find(&currency) {
            Some(i) => {
                proof {
                    old_money.lemma_entry(i as int);
                }
                let sum = self.amounts[i].1 + amount;
                let mut amounts = Vec::new();
                std::mem::swap(&mut amounts, &mut self.amounts);
                let ghost entry_currency = amounts@[i as int].0;
                let (c, _) = amounts.remove(i);
                amounts.insert(i, (c, sum));
                proof {
                    assert(amounts@ =~= old_money.amounts@.update(i as int, (entry_currency, sum)));
                    Money::lemma_set_amount(old_money, Money { amounts }, i as int, sum);
                }
                self.amounts = amounts;
            },
            None => {
                let ghost pushed = currency;
                let mut amounts = Vec::new();
                std::mem::swap(&mut amounts, &mut self.amounts);
                amounts.push((currency, amount));
                proof {
                    Money::lemma_push(old_money, Money { amounts }, pushed, amount);
                }
                self.amounts = amounts;
            },
        }
    }

    /// This money with an amount of a currency added.
    pub fn add_entry(self, entry: (Currency, MinorAmount)) -> (m: Self)
        requires
            fits_minor(amount_in(self@, entry.0@) + entry.1),
        ensures
            m@ == self@.insert(entry.0@, amount_in(self@, entry.0@) + entry.1),
    {
        let mut m = self;
        m.add_assign_entry(entry);
        m
    }

    /// Adds every amount of another money to this one.
    pub fn add_assign(&mut self, rhs: Money)
        requires
            addable(old(self)@, rhs@),
        ensures
            final(self)@ == combined(old(self)@, rhs@),
    {
        proof {
            use_type_invariant(&rhs);
        }
        let ghost start = self@;
        let mut i: usize = 0;
        while i < rhs.amounts.len()
            invariant
                rhs.distinct_currencies(),
                i <= rhs.amounts@.len(),
                addable(start, rhs@),
                forall|c: (Seq<char>, u8)|
                    (exists|k: int| 0 <= k < i && (#[trigger] rhs.amounts@[k]).0@ == c) ==> #[trigger] self@.contains_key(c)
                        && self@[c] == amount_in(start, c) + rhs@[c],
                forall|c: (Seq<char>, u8)|
                    !(exists|k: int| 0 <= k < i && (#[trigger] rhs.amounts@[k]).0@ == c) ==> (
                    #[trigger] self@.contains_key(c) == start.contains_key(c) && (start.contains_key(c) ==> self@[c]
                        == start[c])),
            decreases rhs.amounts@.len() - i,
        {
            let ghost c = rhs.amounts@[i as int].0@;
            proof {
                rhs.lemma_entry(i as int);
                assert(!(exists|k: int| 0 <= k < i && (#[trigger] rhs.amounts@[k]).0@ == c)) by {
                    if exists|k: int| 0 <= k < i && (#[trigger] rhs.amounts@[k]).0@ == c {
                        let k = choose|k: int| 0 <= k < i && (#[trigger] rhs.amounts@[k]).0@ == c;
                        assert(rhs.amounts@[k].0@ != rhs.amounts@[i as int].0@);
                    }
                }
                assert(amount_in(self@, c) == amount_in(start, c));
            }
            let entry = &rhs.amounts[i];
            self.add_assign_entry((entry.0.clone(), entry.1));
            proof {
                assert forall|d: (Seq<char>, u8)|
                    (exists|k: int| 0 <= k < i + 1 && (#[trigger] rhs.amounts@[k]).0@ == d) implies #[trigger] self@.contains_key(d)
                        && self@[d] == amount_in(start, d) + rhs@[d] by {
                    if d != c {
                        let k = choose|k: int| 0 <= k < i + 1 && (#[trigger] rhs.amounts@[k]).0@ == d;
                        assert(k < i);
                    }
                }
            }
            i = i + 1;
        }
        proof {
            assert forall|c: (Seq<char>, u8)| rhs@.contains_key(c) implies (exists|k: int|
                0 <= k < i && (#[trigger] rhs.amounts@[k]).0@ == c) by {
                let k = rhs.entry_index(c);
                assert(rhs.amounts@[k].0@ == c);
            }
            assert forall|c: (Seq<char>, u8)| (exists|k: int|
                0 <= k < i && (#[trigger] rhs.amounts@[k]).0@ == c) implies rhs@.contains_key(c) by {
                let k = choose|k: int| 0 <= k < i && (#[trigger] rhs.amounts@[k]).0@ == c;
                rhs.lemma_entry(k);
            }
            assert(self@ =~= combined(start, rhs@));
        }
    }

    /// This money with every amount of another money added.
    pub fn add(self, rhs: Money) -> (m: Self)
        requires
            addable(self@, rhs@),
        ensures
            m@ == combined(self@, rhs@),
    {
        let mut m = self;
        m.add_assign(rhs);
        m
    }

    /// This money with the sign of every amount flipped.
    pub fn neg(self) -> (m: Self)
        requires
            negatable(self@),
        ensures
            m@ == negated(self@),
    {
        proof {
            use_type_invariant(&self);
        }
        let ghost start = self;
        let mut amounts: Vec<(Currency, MinorAmount)> = Vec::new();
        let mut rest = self.amounts;
        let mut taken: usize = 0;
        let ghost all = rest@;
        let n = rest.len();
        while taken < n
            invariant
                start.distinct_currencies(),
                negatable(start@),
                all == start.amounts@,
                n == all.len(),
                taken <= n,
                rest@ == all.skip(taken as int),
                amounts@.len() == taken,
                forall|k: int|
                    0 <= k < taken ==> (#[trigger] amounts@[k]).0@ == all[k].0@ && amounts@[k].1 as int
                        == -(all[k].1 as int),
            decreases n - taken,
        {
            proof {
                start.lemma_entry(taken as int);
            }
            let (c, v) = rest.remove(0);
            amounts.push((c, -v));
            proof {
                assert(rest@ =~= all.skip(taken as int + 1));
            }
            taken = taken + 1;
        }
        proof {
            let m = Money { amounts };
            assert forall|a: int, b: int|
                0 <= a < b < m.amounts@.len() implies (#[trigger] m.amounts@[a]).0@ != (
                #[trigger] m.amounts@[b]).0@ by {
                assert(all[a].0@ != all[b].0@);
            }
            assert forall|d: (Seq<char>, u8)| m.holds(d) == start.holds(d) by {
                if m.holds(d) {
                    let k = choose|k: int| 0 <= k < m.amounts@.len() && (#[trigger] m.amounts@[k]).0@ == d;
                    assert(start.amounts@[k].0@ == d);
                }
                if start.holds(d) {
                    let k = choose|k: int| 0 <= k < start.amounts@.len() && (#[trigger] start.amounts@[k]).0@ == d;
                    assert(m.amounts@[k].0@ == d);
                }
            }
            assert forall|d: (Seq<char>, u8)| #[trigger] m@.contains_key(d) implies m@[d] == negated(start@)[d] by {
                let k = m.entry_index(d);
                m.lemma_entry(k);
                start.lemma_entry(k);
            }
            assert(m@ =~= negated(start@));
        }
        Money { amounts }
    }

    /// Subtracts every amount of another money from this one.
    pub fn sub_assign(&mut self, rhs: Money)
        requires
            negatable(rhs@),
            addable(old(self)@, negated(rhs@)),
        ensures
            final(self)@ == combined(old(self)@, negated(rhs@)),
    {
        self.add_assign(rhs.neg());
    }

    /// Every amount of a money is a `MinorAmount`.
    pub proof fn lemma_fits(&self)
        ensures
            forall|c: (Seq<char>, u8)| #[trigger] self@.contains_key(c) ==> fits_minor(self@[c]),
    {
    }

    /// Money with no amount of any currency.
    pub fn none() -> (m: Self)
        ensures
            m@ == Map::<(Seq<char>, u8), int>::empty(),
    {
        let m = Money { amounts: Vec::new() };
        assert(m@ =~= Map::<(Seq<char>, u8), int>::empty());
        m
    }

    fn find(&self, currency: &Currency) -> (r: Option<usize>)
        ensures
            match r {
                Some(i) => i < self.amounts@.len() && self.amounts@[i as int].0@ == currency@,
                None => !self@.contains_key(currency@),
            },
    {
        let mut i: usize = 0;
        while i < self.amounts.len()
            invariant
                i <= self.amounts@.len(),
                forall|k: int| 0 <= k < i ==> (#[trigger] self.amounts@[k]).0@ != currency@,
            decreases self.amounts@.len() - i,
        {
            if self.amounts[i].0 == *currency {
                return Some(i);
            }
            i = i + 1;
        }
        None
    }

    /// Gets the amount of a currency, if the money holds any of it.
    pub fn get(&self, currency: &Currency) -> (r: Option<MinorAmount>)
        ensures
            match r {
                Some(v) => self@.contains_key(currency@) && self@[currency@] == v as int,
                None => !self@.contains_key(currency@),
            },
    {
        proof {
            use_type_invariant(self);
        }
        match self.find(currency) {
            Some(i) => {
                proof {
                    self.lemma_entry(i as int);
                }
                Some(self.amounts[i].1)
            },
            None => None,
        }
    }
}

/// Several money models added up in order, starting from no money.
pub open spec fn total_of(moneys: Seq<Map<(Seq<char>, u8), int>>) -> Map<(Seq<char>, u8), int>
    decreases moneys.len(),
{
    if moneys.len() == 0 {
        Map::empty()
    } else {
        combined(total_of(moneys.drop_last()), moneys.last())
    }
}

/// Whether adding up money models in order keeps every amount representable.
pub open spec fn summable(moneys: Seq<Map<(Seq<char>, u8), int>>) -> bool {
    forall|k: int| 0 <= k < moneys.len() ==> addable(total_of(moneys.take(k)), #[trigger] moneys[k])
}

impl Money {
    /// Adds up moneys in order, starting from no money.
    pub fn sum(moneys: Vec<Money>) -> (m: Money)
        requires
            summable(moneys@.map_values(|x: Money| x@)),
        ensures
            m@ == total_of(moneys@.map_values(|x: Money| x@)),
    {
        let ghost views = moneys@.map_values(|x: Money| x@);
        let mut total = Money::none();
        let mut rest = moneys;
        let ghost all = rest@;
        let n = rest.len();
        let mut k: usize = 0;
        proof {
            assert(views.take(0) =~= Seq::<Map<(Seq<char>, u8), int>>::empty());
        }
        while k < n
            invariant
                views == all.map_values(|x: Money| x@),
                n == all.len(),
                k <= n,
                rest@ == all.skip(k as int),
                summable(views),
                total@ == total_of(views.take(k as int)),
            decreases n - k,
        {
            let next = rest.remove(0);
            proof {
                assert(next == all[k as int]);
                assert(views[k as int] == next@);
                assert(rest@ =~= all.skip(k as int + 1));
                assert(views.take(k as int + 1).drop_last() =~= views.take(k as int));
            }
            total.add_assign(next);
            k = k + 1;
        }
        proof {
            assert(views.take(n as int) =~= views);
        }
        total
    }

    fn included_in(&self, other: &Money) -> (r: bool)
        ensures
            r == (forall|c: (Seq<char>, u8)| #[trigger] self@.contains_key(c) ==> other@.contains_key(c)
                && other@[c] == self@[c]),
    {
        proof {
            use_type_invariant(self);
        }
        let mut i: usize = 0;
        while i < self.amounts.len()
            invariant
                self.distinct_currencies(),
                i <= self.amounts@.len(),
                forall|k: int|
                    0 <= k < i ==> other@.contains_key((#[trigger] self.amounts@[k]).0@) && other@[self.amounts@[k].0@]
                        == self.amounts@[k].1 as int,
            decreases self.amounts@.len() - i,
        {
            let entry = &self.amounts[i];
            proof {
                self.lemma_entry(i as int);
            }
            match other.get(&entry.0) {
                Some(v) => {
                    if v != entry.1 {
                        return false;
                    }
                },
                None => {
                    return false;
                },
            }
            i = i + 1;
        }
        proof {
            assert forall|c: (Seq<char>, u8)| #[trigger] self@.contains_key(c) implies other@.contains_key(c)
                && other@[c] == self@[c] by {
                let k = self.entry_index(c);
                self.lemma_entry(k);
            }
        }
        true
    }
}

impl PartialEq for Money {
    fn eq(&self, other: &Self) -> (r: bool) {
        let r = self.included_in(other) && other.included_in(self);
        proof {
            if r {
                assert(self@ =~= other@);
            }
        }
        r
    }
}

impl vstd::std_specs::cmp::PartialEqSpecImpl for Money {
    open spec fn obeys_eq_spec() -> bool {
        true
    }

    open spec fn eq_spec(&self, other: &Money) -> bool {
        self@ == other@
    }
}

/// Subtracting money and then adding it back gives back every amount; a currency that
/// only the subtracted money held stays with nothing in it.
pub proof fn lemma_sub_then_add(a: Map<(Seq<char>, u8), int>, b: Map<(Seq<char>, u8), int>)
    ensures
        combined(combined(a, negated(b)), b).dom() == a.dom().union(b.dom()),
        forall|c: (Seq<char>, u8)| #[trigger] amount_in(combined(combined(a, negated(b)), b), c)
            == amount_in(a, c),
{
    assert(combined(combined(a, negated(b)), b).dom() =~= a.dom().union(b.dom()));
}

/// Adding money is commutative.
pub proof fn lemma_combined_commutes(a: Map<(Seq<char>, u8), int>, b: Map<(Seq<char>, u8), int>)
    ensures
        combined(a, b) == combined(b, a),
{
    assert(combined(a, b) =~= combined(b, a));
}

/// The sum, over a sequence of money models, of the amounts of a currency.
pub open spec fn amounts_added(moneys: Seq<Map<(Seq<char>, u8), int>>, c: (Seq<char>, u8)) -> int
    decreases moneys.len(),
{
    if moneys.len() == 0 {
        0
    } else {
        amounts_added(moneys.drop_last(), c) + amount_in(moneys.last(), c)
    }
}

/// Adding up moneys adds each one, in order, to the total of those before it, whatever
/// the moneys are; so every currency's amount in the total is the sum of its amounts in
/// all the moneys, and a currency is in the total when some money holds it.
pub proof fn lemma_total_of_adds_each(
    moneys: Seq<Map<(Seq<char>, u8), int>>,
    m: Map<(Seq<char>, u8), int>,
    c: (Seq<char>, u8),
)
    ensures
        total_of(moneys.push(m)) == combined(total_of(moneys), m),
        amount_in(total_of(moneys), c) == amounts_added(moneys, c),
        total_of(moneys).contains_key(c) <==> exists|k: int|
            0 <= k < moneys.len() && (#[trigger] moneys[k]).contains_key(c),
    decreases moneys.len(),
{
    assert(moneys.push(m).drop_last() =~= moneys);
    if moneys.len() > 0 {
        let rest = moneys.drop_last();
        lemma_total_of_adds_each(rest, moneys.last(), c);
        assert(rest.push(moneys.last()) =~= moneys);
        if total_of(moneys).contains_key(c) {
            if !moneys.last().contains_key(c) {
                let k = choose|k: int| 0 <= k < rest.len() && (#[trigger] rest[k]).contains_key(c);
                assert(moneys[k] == rest[k]);
            } else {
                assert(moneys[moneys.len() - 1].contains_key(c));
            }
        }
        if exists|k: int| 0 <= k < moneys.len() && (#[trigger] moneys[k]).contains_key(c) {
            let k = choose|k: int| 0 <= k < moneys.len() && (#[trigger] moneys[k]).contains_key(c);
            if k < rest.len() {
                assert(rest[k] == moneys[k]);
            }
        }
    }
}

impl Clone for Money {
    fn clone(&self) -> (m: Self)
        ensures
            m@ == self@,
    {
        proof {
            use_type_invariant(self);
        }
        let mut amounts: Vec<(Currency, MinorAmount)> = Vec::new();
        let mut i: usize = 0;
        while i < self.amounts.len()
            invariant
                self.distinct_currencies(),
                i <= self.amounts@.len(),
                amounts@.len() == i,
                forall|k: int|
                    0 <= k < i ==> (#[trigger] amounts@[k]).0@ == self.amounts@[k].0@ && amounts@[k].1
                        == self.amounts@[k].1,
            decreases self.amounts@.len() - i,
        {
            let entry = &self.amounts[i];
            amounts.push((entry.0.clone(), entry.1));
            i = i + 1;
        }
        let m = Money { amounts };
        proof {
            assert forall|c: (Seq<char>, u8)| m.holds(c) == self.holds(c) by {
                if m.holds(c) {
                    let k = choose|k: int| 0 <= k < m.amounts@.len() && (#[trigger] m.amounts@[k]).0@ == c;
                    assert(self.amounts@[k].0@ == c);
                }
                if self.holds(c) {
                    let k = choose|k: int| 0 <= k < self.amounts@.len() && (#[trigger] self.amounts@[k]).0@ == c;
                    assert(m.amounts@[k].0@ == c);
                }
            }
            assert forall|c: (Seq<char>, u8)| #[trigger] m@.contains_key(c) implies m@[c] == self@[c] by {
                let k = m.entry_index(c);
                m.lemma_entry(k);
                self.lemma_entry(k);
            }
            assert(m@ =~= self@);
        }
        m
    }
}

} // verus!
