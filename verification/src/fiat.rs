//! Fiat money: amounts of a single currency, counted in the currency's minor unit.
use vstd::prelude::*;

verus! {

/// An amount in a currency's minor unit (such as cents).
pub type MinorAmount = i64;

/// An amount in a currency's major unit (such as dollars).
pub type MajorAmount = MinorAmount;

/// A currency, with how many of its minor units make one major unit.
#[derive(Hash, Eq, PartialEq, Clone, Copy, Debug)]
pub struct Currency<'a> {
    code: &'a str,
    minor_to_major: u8,
}

/// The whole major units in an amount of minor units, rounded toward zero, as Rust's
/// integer division does.
pub open spec fn major_part(minor_amount: int, minor_to_major: int) -> int {
    if minor_amount >= 0 {
        minor_amount / minor_to_major
    } else {
        -((-minor_amount) / minor_to_major)
    }
}

/// The minor units left over beside the whole major units; it has the sign of the amount.
pub open spec fn minor_part(minor_amount: int, minor_to_major: int) -> int {
    minor_amount - major_part(minor_amount, minor_to_major) * minor_to_major
}

/// An amount of money given in major and minor units, counted in minor units.
pub open spec fn in_minor_units(major_amount: int, minor_amount: int, minor_to_major: int) -> int {
    major_amount * minor_to_major + minor_amount
}

impl<'a> Currency<'a> {
    /// The currency's code.
    pub closed spec fn spec_code(&self) -> Seq<char> {
        self.code@
    }

    /// How many minor units make one major unit.
    pub closed spec fn spec_minor_to_major(&self) -> u8 {
        self.minor_to_major
    }

    /// Creates a currency.
    pub fn new(code: &'a str, minor_to_major: u8) -> (c: Self)
        ensures
            c.spec_code() == code@,
            c.spec_minor_to_major() == minor_to_major,
    {
        Self { code, minor_to_major }
    }

    /// Money of this currency, given in major units.
    pub fn of_major(&self, amount: MajorAmount) -> (m: Money<'a>)
        requires
            countable(amount as int, 0, self.spec_minor_to_major() as int),
        ensures
            m.spec_currency() == *self,
            m.spec_minor_amount() == in_minor_units(amount as int, 0, self.spec_minor_to_major() as int),
    {
        self.of(amount, 0)
    }

    /// Money of this currency, given in minor units.
    pub fn of_minor(&self, amount: MinorAmount) -> (m: Money<'a>)
        ensures
            m.spec_currency() == *self,
            m.spec_minor_amount() == amount,
    {
        self.of(0, amount)
    }

    /// Money of this currency, given in major units and minor units.
    pub fn of(&self, major_amount: MajorAmount, minor_amount: MinorAmount) -> (m: Money<'a>)
        requires
            countable(major_amount as int, minor_amount as int, self.spec_minor_to_major() as int),
        ensures
            m.spec_currency() == *self,
            m.spec_minor_amount() == in_minor_units(
                major_amount as int,
                minor_amount as int,
                self.spec_minor_to_major() as int,
            ),
    {
        Money::new(major_amount, minor_amount, *self)
    }
}

/// The Thai baht: 100 satang make one baht.
#[allow(non_snake_case)]
pub fn THB() -> (c: Currency<'static>)
    ensures
        c.spec_code() == "THB"@,
        c.spec_minor_to_major() == 100,
{
    Currency::new("THB", 100)
}

/// Whether counting major and minor units in minor units stays within `MinorAmount`,
/// at its intermediate step too.
pub open spec fn countable(major_amount: int, minor_amount: int, minor_to_major: int) -> bool {
    &&& fits_minor(major_amount * minor_to_major)
    &&& fits_minor(in_minor_units(major_amount, minor_amount, minor_to_major))
}

/// Whether an amount is representable as a `MinorAmount`.
pub open spec fn fits_minor(x: int) -> bool {
    i64::MIN <= x <= i64::MAX
}

/// An amount of money in one currency.
#[derive(Clone, Copy)]
pub struct Money<'a> {
    pub(crate) minor_amount: MinorAmount,
    pub(crate) currency: Currency<'a>,
}

impl<'a> Money<'a> {
    /// The amount, in minor units.
    pub closed spec fn spec_minor_amount(&self) -> int {
        self.minor_amount as int
    }

    /// The currency.
    pub closed spec fn spec_currency(&self) -> Currency<'a> {
        self.currency
    }

    pub(crate) fn new(major_amount: MajorAmount, minor_amount: MinorAmount, currency: Currency<'a>) -> (m: Self)
        requires
            countable(major_amount as int, minor_amount as int, currency.spec_minor_to_major() as int),
        ensures
            m.spec_currency() == currency,
            m.spec_minor_amount() == in_minor_units(
                major_amount as int,
                minor_amount as int,
                currency.spec_minor_to_major() as int,
            ),
    {
        let minor_to_major = currency.minor_to_major as MinorAmount;
        let minor_amount = major_amount * minor_to_major + minor_amount;
        Money { minor_amount, currency }
    }

    /// The amount as whole major units and the minor units left over, both with the sign
    /// of the amount.
    pub fn amount(&self) -> (r: (MajorAmount, MinorAmount))
        requires
            self.spec_currency().spec_minor_to_major() != 0,
        ensures
            r.0 == major_part(self.spec_minor_amount(), self.spec_currency().spec_minor_to_major() as int),
            r.1 == minor_part(self.spec_minor_amount(), self.spec_currency().spec_minor_to_major() as int),
    {
        let m = self.minor_amount;
        let r = self.currency.minor_to_major as MinorAmount;
        let q = m / r;
        let rem = m % r;
        assert(q == major_part(m as int, r as int));
        assert(rem == if m >= 0 { (m as int) % (r as int) } else { -((-(m as int)) % (r as int)) });
        assert(rem == m - q * r) by (nonlinear_arith)
            requires
                r > 0,
                q == major_part(m as int, r as int),
                rem == if m >= 0 { (m as int) % (r as int) } else { -((-(m as int)) % (r as int)) },
        ;
        (q, rem)
    }

    /// How many minor units of the money's currency make one major unit.
    pub fn minor_to_major(&self) -> (r: u8)
        ensures
            r == self.spec_currency().spec_minor_to_major(),
    {
        self.currency.minor_to_major
    }

    /// The same amount with the opposite sign.
    pub fn neg(self) -> (m: Self)
        requires
            self.spec_minor_amount() != i64::MIN,
        ensures
            m.spec_currency() == self.spec_currency(),
            m.spec_minor_amount() == -self.spec_minor_amount(),
    {
        let mut money = self;
        money.minor_amount = -money.minor_amount;
        money
    }
}

/// Splitting money back into major and minor units gives the units it was made of,
/// where the minor units are fewer than one major unit and share the sign of the major units.
pub proof fn lemma_amount_of_money(major_amount: int, minor_amount: int, minor_to_major: int)
    requires
        minor_to_major > 0,
        0 <= major_amount && 0 <= minor_amount < minor_to_major || major_amount <= 0 && -minor_to_major
            < minor_amount <= 0,
    ensures
        major_part(in_minor_units(major_amount, minor_amount, minor_to_major), minor_to_major)
            == major_amount,
        minor_part(in_minor_units(major_amount, minor_amount, minor_to_major), minor_to_major)
            == minor_amount,
{
    let m = major_amount * minor_to_major + minor_amount;
    if 0 <= major_amount && 0 <= minor_amount {
        assert(m >= 0) by (nonlinear_arith)
            requires
                major_amount >= 0,
                minor_to_major > 0,
                minor_amount >= 0,
                m == major_amount * minor_to_major + minor_amount,
        ;
        vstd::arithmetic::div_mod::lemma_fundamental_div_mod_converse(
            m,
            minor_to_major,
            major_amount,
            minor_amount,
        );
    } else {
        let n = -m;
        assert(n == (-major_amount) * minor_to_major + (-minor_amount)) by (nonlinear_arith)
            requires
                n == -m,
                m == major_amount * minor_to_major + minor_amount,
        ;
        assert(n >= 0) by (nonlinear_arith)
            requires
                major_amount <= 0,
                minor_to_major > 0,
                minor_amount <= 0,
                n == (-major_amount) * minor_to_major + (-minor_amount),
        ;
        vstd::arithmetic::div_mod::lemma_fundamental_div_mod_converse(
            n,
            minor_to_major,
            -major_amount,
            -minor_amount,
        );
        if m >= 0 {
            assert(m == 0);
        }
    }
}

} // verus!
