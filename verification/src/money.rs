//! Money as a decimal number of a currency, scaled by the currency's number of decimal places.
use vstd::prelude::*;

verus! {

/// A currency: its code, and how many decimal places its amounts have.
pub struct Currency {
    code: String,
    scale: u32,
}

/// The largest scale a decimal amount can have.
pub const MAX_SCALE: u32 = 28;

/// A decimal number as `rust_decimal::Decimal` holds it when made from an `i64`: a sign
/// flag, the magnitude, and the scale. Its value is the signed magnitude divided by ten to
/// the power of the scale; a zero may carry the negative sign.
#[derive(Clone, Copy, Debug, PartialEq, Eq, Structural)]
pub struct DecimalAmount {
    pub negative: bool,
    pub magnitude: u64,
    pub scale: u32,
}

impl DecimalAmount {
    /// The signed magnitude.
    pub open spec fn mantissa(&self) -> int {
        if self.negative {
            -(self.magnitude as int)
        } else {
            self.magnitude as int
        }
    }

    /// The decimal `num` divided by ten to the power of `scale`, as `Decimal::new` makes it.
    pub fn new(num: i64, scale: u32) -> (d: Self)
        requires
            scale <= MAX_SCALE,
        ensures
            d.mantissa() == num,
            d.negative == (num < 0),
            d.scale == scale,
    {
        if num < 0 {
            let magnitude: u64 = if num == i64::MIN {
                9223372036854775808u64
            } else {
                (-num) as u64
            };
            DecimalAmount { negative: true, magnitude, scale }
        } else {
            DecimalAmount { negative: false, magnitude: num as u64, scale }
        }
    }

    /// Sets the sign, as `Decimal::set_sign_negative` does; the magnitude and scale stay.
    pub fn set_sign_negative(&mut self, negative: bool)
        ensures
            final(self).negative == negative,
            final(self).magnitude == old(self).magnitude,
            final(self).scale == old(self).scale,
    {
        self.negative = negative;
    }
}

impl Currency {
    /// The currency's code.
    pub closed spec fn spec_code(&self) -> Seq<char> {
        self.code@
    }

    /// How many decimal places its amounts have.
    pub closed spec fn spec_scale(&self) -> u32 {
        self.scale
    }

    /// Creates a currency.
    pub fn new(code: &str, scale: u32) -> (c: Self)
        ensures
            c.spec_code() == code@,
            c.spec_scale() == scale,
    {
        Self { code: code.to_owned(), scale }
    }

    /// Money of this currency: `amount` counted in the currency's smallest unit.
    pub fn of(&self, amount: i64) -> (m: Money)
        requires
            self.spec_scale() <= MAX_SCALE,
        ensures
            m.spec_amount().mantissa() == amount,
            m.spec_amount().scale == self.spec_scale(),
            m.spec_currency() == *self,
    {
        Money::new(amount, self)
    }
}

/// The Thai baht, whose amounts have two decimal places.
#[allow(non_snake_case)]
pub fn THB() -> (c: Currency)
    ensures
        c.spec_code() == "THB"@,
        c.spec_scale() == 2,
{
    Currency::new("THB", 2)
}

/// An amount of money of a currency.
pub struct Money<'a> {
    amount: DecimalAmount,
    currency: &'a Currency,
}

impl<'a> Money<'a> {
    /// The amount.
    pub closed spec fn spec_amount(&self) -> DecimalAmount {
        self.amount
    }

    /// The currency.
    pub closed spec fn spec_currency(&self) -> Currency {
        *self.currency
    }

    /// Money of a currency: `amount` counted in the currency's smallest unit.
    pub fn new(amount: i64, currency: &'a Currency) -> (m: Self)
        requires
            currency.spec_scale() <= MAX_SCALE,
        ensures
            m.spec_amount().mantissa() == amount,
            m.spec_amount().scale == currency.spec_scale(),
            m.spec_currency() == *currency,
    {
        Money { amount: DecimalAmount::new(amount, currency.scale), currency }
    }

    /// The same money with its sign set negative: a negative amount stays as it is, and a
    /// positive one is negated.
    pub fn negate(&self) -> (m: Self)
        ensures
            m.spec_amount().mantissa() == -vstd::math::abs(self.spec_amount().mantissa()),
            m.spec_amount().negative,
            m.spec_amount().scale == self.spec_amount().scale,
            m.spec_currency() == self.spec_currency(),
    {
        let mut amount = self.amount;
        amount.set_sign_negative(true);
        Money { amount, currency: self.currency }
    }
}

} // verus!
