//! Decimal amounts and ISO-4217 currencies, the values transactions carry.
//!
//! Decimal arithmetic, parsing and rendering are those of `rust_decimal`
//! and `rusty_money`; this module holds their results as plain values.
use vstd::prelude::*;
use rust_decimal::Decimal;
use std::str::FromStr;
use vstd::arithmetic::power::pow;
use crate::text::{decimal, padded_decimal};

verus! {

/// The largest mantissa a decimal can have (96 bits).
pub const MAX_MANTISSA: i128 = 0xFFFF_FFFF_FFFF_FFFF_FFFF_FFFF;

/// The largest number of digits after the decimal point.
pub const MAX_SCALE: u32 = 28;

/// A decimal number `mantissa / 10^scale`, as `rust_decimal::Decimal`
/// represents it: with its sign, which a zero keeps too (`-0.00`).
#[derive(Clone, Copy, Debug, PartialEq, Eq, Hash)]
pub struct Amount {
    pub mantissa: i128,
    pub scale: u32,
    pub negative: bool,
}

impl Amount {
    /// Whether the parts fit a decimal, the sign agreeing with the mantissa.
    pub open spec fn wf(self) -> bool {
        &&& -MAX_MANTISSA <= self.mantissa <= MAX_MANTISSA
        &&& self.scale <= MAX_SCALE
        &&& self.mantissa < 0 ==> self.negative
        &&& self.mantissa > 0 ==> !self.negative
    }

    /// The amount with the opposite sign (zero included).
    pub open spec fn negation(self) -> Amount {
        Amount { mantissa: (-self.mantissa) as i128, scale: self.scale, negative: !self.negative }
    }

    /// Zero.
    pub fn zero() -> (r: Amount)
        ensures
            r == (Amount { mantissa: 0, scale: 0, negative: false }),
            r.wf(),
    {
        Amount { mantissa: 0, scale: 0, negative: false }
    }

    /// `mantissa / 10^scale` (`Decimal::from_i128_with_scale`, negative
    /// exactly when the mantissa is), or `None` when the parts do not fit a
    /// decimal.
    pub fn new(mantissa: i128, scale: u32) -> (r: Option<Amount>)
        ensures
            r is Some <==> (-MAX_MANTISSA <= mantissa <= MAX_MANTISSA && scale <= MAX_SCALE),
            r matches Some(a) ==> a == (Amount { mantissa, scale, negative: mantissa < 0 }),
            r matches Some(a) ==> a.wf(),
    {
        if -MAX_MANTISSA <= mantissa && mantissa <= MAX_MANTISSA && scale <= MAX_SCALE {
            Some(Amount { mantissa, scale, negative: mantissa < 0 })
        } else {
            None
        }
    }

    /// The decimal with these parts and sign, or `None` when they do not fit
    /// a decimal or the sign disagrees with a nonzero mantissa.
    pub fn from_parts(mantissa: i128, scale: u32, negative: bool) -> (r: Option<Amount>)
        ensures
            r is Some <==> (Amount { mantissa, scale, negative }).wf(),
            r matches Some(a) ==> a == (Amount { mantissa, scale, negative }),
    {
        if -MAX_MANTISSA <= mantissa && mantissa <= MAX_MANTISSA && scale <= MAX_SCALE && (
        mantissa >= 0 || negative) && (mantissa <= 0 || !negative) {
            Some(Amount { mantissa, scale, negative })
        } else {
            None
        }
    }

    /// A whole number of units.
    pub fn from_major(units: i64) -> (r: Amount)
        ensures
            r == (Amount { mantissa: units as i128, scale: 0, negative: units < 0 }),
            r.wf(),
    {
        Amount { mantissa: units as i128, scale: 0, negative: units < 0 }
    }

    /// The amount with the opposite sign (`-` of `Decimal`, which turns a
    /// zero's sign too).
    pub fn negated(&self) -> (r: Amount)
        requires
            self.wf(),
        ensures
            r == self.negation(),
            r.wf(),
    {
        Amount { mantissa: -self.mantissa, scale: self.scale, negative: !self.negative }
    }

    /// The sum of two amounts, or `None` when it overflows.
    pub fn checked_add(&self, other: &Amount) -> (r: Option<Amount>)
        requires
            self.wf(),
            other.wf(),
        ensures
            r == decimal_sum(*self, *other),
            r matches Some(s) ==> s.wf(),
    {
        decimal_checked_add(*self, *other)
    }

    /// The decimal text of the amount (what `Decimal`'s `Display` gives).
    pub fn to_decimal_string(&self) -> (s: String)
        requires
            self.wf(),
        ensures
            s@ == decimal_text(*self),
    {
        decimal_to_string(*self)
    }

    /// The decimal written in `text` (`Decimal::from_str`), or `None` when
    /// `text` is no decimal.
    pub fn parse(text: &str) -> (r: Option<Amount>)
        ensures
            r == decimal_parse(text@),
            r matches Some(a) ==> a.wf(),
    {
        decimal_from_str(text)
    }
}

/// What `Decimal::checked_add` gives for two amounts.
pub uninterp spec fn decimal_sum(a: Amount, b: Amount) -> Option<Amount>;

/// What `Decimal`'s `Display` writes for an amount: a minus sign when it
/// is negative (a negative zero too), then the digits of the magnitude and,
/// when the scale is not zero, a point before its last `scale` digits,
/// with a zero before the point when no digit is left there.
pub open spec fn decimal_text(a: Amount) -> Seq<char> {
    let m = (if a.mantissa < 0 { -a.mantissa } else { a.mantissa as int }) as nat;
    let p = pow(10, a.scale as nat) as nat;
    let sign = if a.negative { seq!['-'] } else { Seq::<char>::empty() };
    if a.scale == 0 {
        sign + decimal(m)
    } else {
        sign + decimal(m / p) + seq!['.'] + padded_decimal(m % p, a.scale as nat)
    }
}

/// What `Decimal::from_str` gives for a text.
pub uninterp spec fn decimal_parse(text: Seq<char>) -> Option<Amount>;

/// Whether `code` is the alphabetic code of an ISO-4217 currency known to
/// `rusty_money`.
pub uninterp spec fn is_iso_code(code: Seq<char>) -> bool;

/// What `rusty_money`'s `Display` writes for an amount in the currency
/// with the given code.
pub uninterp spec fn money_text(a: Amount, code: Seq<char>) -> Seq<char>;

/// `Decimal::checked_add`: the sum of two decimals, or `None` on overflow.
/// The result is named, not stated: `rust_decimal` rescales to the larger
/// scale and rounds when the exact sum needs more than 96 bits.
#[verifier::external_body]
fn decimal_checked_add(a: Amount, b: Amount) -> (r: Option<Amount>)
    requires
        a.wf(),
        b.wf(),
    ensures
        r == decimal_sum(a, b),
        r matches Some(s) ==> s.wf(),
{
    let mut x = Decimal::from_i128_with_scale(a.mantissa, a.scale);
    x.set_sign_negative(a.negative);
    let mut y = Decimal::from_i128_with_scale(b.mantissa, b.scale);
    y.set_sign_negative(b.negative);
    x.checked_add(y).map(|s| Amount { mantissa: s.mantissa(), scale: s.scale(), negative: s.is_sign_negative() })
}

/// `Decimal`'s `Display`.
#[verifier::external_body]
fn decimal_to_string(a: Amount) -> (s: String)
    requires
        a.wf(),
    ensures
        s@ == decimal_text(a),
{
    let mut d = Decimal::from_i128_with_scale(a.mantissa, a.scale);
    d.set_sign_negative(a.negative);
    d.to_string()
}

/// `Decimal::from_str`; a decimal's parts always fit a decimal.
#[verifier::external_body]
fn decimal_from_str(text: &str) -> (r: Option<Amount>)
    ensures
        r == decimal_parse(text@),
        r matches Some(a) ==> a.wf(),
{
    Decimal::from_str(text).ok().map(|d| Amount { mantissa: d.mantissa(), scale: d.scale(), negative: d.is_sign_negative() })
}

/// `rusty_money::iso::find`: the currency whose alphabetic code is `code`.
/// Every ISO code there is three upper-case ASCII letters.
#[verifier::external_body]
fn iso_find(code: &str) -> (r: Option<String>)
    ensures
        r is Some <==> is_iso_code(code@),
        r matches Some(c) ==> c@ == code@,
        r matches Some(c) ==> is_code_shape(c@),
{
    rusty_money::iso::find(code).map(|c| c.iso_alpha_code.to_string())
}

/// `rusty_money`'s `Display` for `Money`, in the currency with the given code.
#[verifier::external_body]
fn money_to_string(a: Amount, code: &str) -> (s: String)
    requires
        a.wf(),
        is_iso_code(code@),
    ensures
        s@ == money_text(a, code@),
{
    let currency = rusty_money::iso::find(code).unwrap();
    let mut d = Decimal::from_i128_with_scale(a.mantissa, a.scale);
    d.set_sign_negative(a.negative);
    rusty_money::Money::from_decimal(d, currency).to_string()
}

/// Three upper-case ASCII letters.
pub open spec fn is_code_shape(code: Seq<char>) -> bool {
    code.len() == 3 && forall|i: int| 0 <= i < 3 ==> 'A' <= #[trigger] code[i] <= 'Z'
}

/// An ISO-4217 currency, known by its alphabetic code.
#[derive(Debug, PartialEq, Eq, Hash)]
pub struct Currency {
    code: String,
}

impl Currency {
    #[verifier::type_invariant]
    closed spec fn inv(self) -> bool {
        is_iso_code(self.code@) && is_code_shape(self.code@)
    }

    /// The alphabetic code, such as `USD`.
    pub closed spec fn spec_code(self) -> Seq<char> {
        self.code@
    }

    /// The currency whose alphabetic code is `code`.
    pub fn find(code: &str) -> (r: Option<Currency>)
        ensures
            r is Some <==> is_iso_code(code@),
            r matches Some(c) ==> c.spec_code() == code@,
    {
        match iso_find(code) {
            Some(c) => Some(Currency { code: c }),
            None => None,
        }
    }

    /// The alphabetic code, such as `USD`.
    pub fn code(&self) -> (r: &str)
        ensures
            r@ == self.spec_code(),
            is_iso_code(r@),
            is_code_shape(r@),
    {
        proof {
            use_type_invariant(self);
        }
        self.code.as_str()
    }

    /// Whether two currencies are the same.
    pub fn same_as(&self, other: &Currency) -> (r: bool)
        ensures
            r == (self.spec_code() == other.spec_code()),
    {
        self.code == other.code
    }
}

/// An amount of money in a currency.
#[derive(Debug, PartialEq, Eq, Hash)]
pub struct Money {
    amount: Amount,
    currency: Currency,
}

impl Money {
    #[verifier::type_invariant]
    closed spec fn inv(self) -> bool {
        self.amount.wf()
    }

    pub closed spec fn spec_amount(self) -> Amount {
        self.amount
    }

    pub closed spec fn spec_currency(self) -> Currency {
        self.currency
    }

    /// `amount` in `currency`.
    pub fn from_decimal(amount: Amount, currency: Currency) -> (r: Money)
        requires
            amount.wf(),
        ensures
            r.spec_amount() == amount,
            r.spec_currency() == currency,
    {
        Money { amount, currency }
    }

    /// A whole number of units of `currency`.
    pub fn from_major(units: i64, currency: Currency) -> (r: Money)
        ensures
            r.spec_amount() == Amount::from_major_spec(units),
            r.spec_currency() == currency,
    {
        Money { amount: Amount::from_major(units), currency }
    }

    pub fn amount(&self) -> (r: Amount)
        ensures
            r == self.spec_amount(),
            r.wf(),
    {
        proof {
            use_type_invariant(self);
        }
        self.amount
    }

    pub fn currency(&self) -> (r: &Currency)
        ensures
            *r == self.spec_currency(),
    {
        &self.currency
    }

    /// What `rusty_money` writes for this money, such as `$100.00`.
    pub fn to_display_string(&self) -> (s: String)
        ensures
            s@ == money_text(self.spec_amount(), self.spec_currency().spec_code()),
    {
        proof {
            use_type_invariant(self);
        }
        money_to_string(self.amount, self.currency.code())
    }
}

impl Clone for Currency {
    fn clone(&self) -> (r: Currency)
        ensures
            r.spec_code() == self.spec_code(),
    {
        proof {
            use_type_invariant(self);
        }
        Currency { code: self.code.clone() }
    }
}

impl Clone for Money {
    fn clone(&self) -> (r: Money)
        ensures
            r.spec_amount() == self.spec_amount(),
            r.spec_currency().spec_code() == self.spec_currency().spec_code(),
    {
        proof {
            use_type_invariant(self);
        }
        Money { amount: self.amount, currency: self.currency.clone() }
    }
}

impl Amount {
    pub open spec fn from_major_spec(units: i64) -> Amount {
        Amount { mantissa: units as i128, scale: 0, negative: units < 0 }
    }
}

} // verus!
