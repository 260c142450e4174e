//! Monetary amounts: non-negative decimals with at most four fractional
//! digits, held as a mantissa and a scale the way `rust_decimal` holds them.
//!
//! Contracts speak of an amount through its view, the number of
//! ten-thousandths it stands for. Decimal arithmetic itself is left to
//! `rust_decimal`; the functions that call it are marked as trusted.

use rust_decimal::Decimal;
use std::str::FromStr;
use vstd::prelude::*;

verus! {

/// Fractional digits that an amount keeps.
pub const MAX_DECIMALS: u32 = 4;

/// The largest amount, in ten-thousandths: the largest 96-bit mantissa.
pub const MAX_UNITS: u128 = 0xFFFF_FFFF_FFFF_FFFF_FFFF_FFFF;

/// The largest mantissa of a decimal, as a signed number.
pub const MAX_MANTISSA: i128 = 0xFFFF_FFFF_FFFF_FFFF_FFFF_FFFF;

/// The largest scale of a decimal.
pub const MAX_DECIMAL_SCALE: u32 = 28;

/// Ten to the power `n`.
pub open spec fn pow10(n: nat) -> nat
    decreases n,
{
    if n == 0 {
        1
    } else {
        10 * pow10((n - 1) as nat)
    }
}

/// Ten-thousandths in one unit of the last digit at `scale` fractional digits.
pub open spec fn unit_factor(scale: nat) -> nat {
    if scale == 0 {
        10000
    } else if scale == 1 {
        1000
    } else if scale == 2 {
        100
    } else if scale == 3 {
        10
    } else {
        1
    }
}

/// Whether `mantissa / 10^scale` is a value that a 96-bit decimal can hold.
pub open spec fn is_decimal(mantissa: int, scale: nat) -> bool {
    scale <= MAX_DECIMAL_SCALE && -(MAX_UNITS as int) <= mantissa <= MAX_UNITS as int
}

/// `mantissa / 10^scale` rounded to `dp` fractional digits, ties to the even
/// neighbour, as a new mantissa and scale. A value that already has at most
/// `dp` fractional digits is returned as it is.
pub open spec fn round_half_even(mantissa: int, scale: nat, dp: nat) -> (int, nat) {
    if scale <= dp {
        (mantissa, scale)
    } else {
        let p = pow10((scale - dp) as nat) as int;
        let magnitude = if mantissa < 0 {
            -mantissa
        } else {
            mantissa
        };
        let quotient = magnitude / p;
        let rest = magnitude % p;
        let up = 2 * rest > p || (2 * rest == p && quotient % 2 == 1);
        let kept = if up {
            quotient + 1
        } else {
            quotient
        };
        (
            if mantissa < 0 {
                -kept
            } else {
                kept
            },
            dp,
        )
    }
}

/// Every power of ten above the zeroth is at least ten.
pub proof fn lemma_pow10_at_least_ten(n: nat)
    requires
        n >= 1,
    ensures
        pow10(n) >= 10,
    decreases n,
{
    reveal_with_fuel(pow10, 2);
    if n > 1 {
        lemma_pow10_at_least_ten((n - 1) as nat);
    }
}

/// Rounding a decimal gives a decimal: the mantissa does not grow, and the
/// scale does not either.
pub proof fn lemma_rounded_is_decimal(mantissa: int, scale: nat, dp: nat)
    requires
        is_decimal(mantissa, scale),
    ensures
        is_decimal(round_half_even(mantissa, scale, dp).0, round_half_even(mantissa, scale, dp).1),
        round_half_even(mantissa, scale, dp).1 <= scale,
        round_half_even(mantissa, scale, dp).1 <= dp || scale <= dp,
{
    if scale > dp {
        let p = pow10((scale - dp) as nat) as int;
        lemma_pow10_at_least_ten((scale - dp) as nat);
        let magnitude = if mantissa < 0 {
            -mantissa
        } else {
            mantissa
        };
        let quotient = magnitude / p;
        vstd::arithmetic::div_mod::lemma_fundamental_div_mod(magnitude, p);
        vstd::arithmetic::div_mod::lemma_mod_pos_bound(magnitude, p);
        vstd::arithmetic::div_mod::lemma_div_pos_is_pos(magnitude, p);
        assert(10 * quotient <= magnitude) by (nonlinear_arith)
            requires
                p >= 10,
                quotient >= 0,
                p * quotient <= magnitude,
        ;
    }
}

/// The ten-thousandths that the decimal `mantissa / 10^scale` stands for once
/// rounded to four fractional digits.
pub open spec fn four_dp_units(mantissa: int, scale: nat) -> int {
    let (m4, s4) = round_half_even(mantissa, scale, MAX_DECIMALS as nat);
    m4 * unit_factor(s4)
}

/// The fractional digits that the decimal keeps once rounded to four.
pub open spec fn four_dp_scale(mantissa: int, scale: nat) -> nat {
    round_half_even(mantissa, scale, MAX_DECIMALS as nat).1
}

/// Whether the decimal `mantissa / 10^scale`, rounded to four fractional
/// digits, is an amount: not negative, and not above `MAX_UNITS`.
pub open spec fn is_amount(mantissa: int, scale: nat) -> bool {
    &&& is_decimal(mantissa, scale)
    &&& 0 <= four_dp_units(mantissa, scale) <= MAX_UNITS
}

/// Whether `r` is what the decimal `mantissa / 10^scale` gives as an amount:
/// its value rounded to four fractional digits where that is an amount, and
/// nothing where it is not.
pub open spec fn amount_matches(r: Option<Amount>, mantissa: int, scale: nat) -> bool {
    &&& r.is_some() <==> is_amount(mantissa, scale)
    &&& r matches Some(a) ==> {
        &&& a@ == four_dp_units(mantissa, scale)
        &&& a.decimals() == four_dp_scale(mantissa, scale)
    }
}

/// What `Decimal::from_str` makes of a text: the mantissa and the scale of
/// the decimal that it reads, or `None` where it reports an error.
pub uninterp spec fn parsed_decimal(text: Seq<char>) -> Option<(int, nat)>;

/// A decimal as two plain numbers: the value is `mantissa / 10^scale`.
#[derive(Debug, Clone, Copy)]
pub struct DecimalParts {
    pub mantissa: i128,
    pub scale: u32,
}

/// A non-negative amount of money with at most four fractional digits.
#[derive(Debug, Clone, Copy)]
pub struct Amount {
    mantissa: u128,
    scale: u32,
}

impl View for Amount {
    type V = nat;

    /// The amount in ten-thousandths.
    closed spec fn view(&self) -> nat {
        self.mantissa as nat * unit_factor(self.scale as nat)
    }
}

impl Amount {
    /// What holds of every amount: at most four fractional digits, and a
    /// value within the range of balances.
    #[verifier::type_invariant]
    pub closed spec fn valid(self) -> bool {
        &&& self.scale <= MAX_DECIMALS
        &&& self.mantissa * unit_factor(self.scale as nat) <= MAX_UNITS
    }

    /// The number of fractional digits that the amount is written with.
    pub closed spec fn decimals(self) -> nat {
        self.scale as nat
    }

    /// A valid amount is within the range of balances and has at most four
    /// fractional digits.
    pub proof fn lemma_bounds(self)
        requires
            self.valid(),
        ensures
            self@ <= MAX_UNITS,
            self.decimals() <= MAX_DECIMALS,
    {
    }

    /// Zero.
    pub fn zero() -> (r: Amount)
        ensures
            r@ == 0,
            r.decimals() == 0,
    {
        Amount { mantissa: 0, scale: 0 }
    }

    /// The whole number `n`.
    pub fn from_u32(n: u32) -> (r: Amount)
        ensures
            r@ == n * 10000,
            r.decimals() == 0,
    {
        Amount { mantissa: n as u128, scale: 0 }
    }

    /// The amount that the decimal `mantissa / 10^scale` stands for, rounded
    /// to four fractional digits with ties to the even neighbour. `None`
    /// where the two numbers are no decimal, or the rounded value is negative
    /// or above `MAX_UNITS`.
    pub fn from_parts(mantissa: i128, scale: u32) -> (r: Option<Amount>)
        ensures
            amount_matches(r, mantissa as int, scale as nat),
    {
        if scale > MAX_DECIMAL_SCALE || mantissa > MAX_MANTISSA || mantissa < -MAX_MANTISSA {
            return None;
        }
        let rounded = decimal_round_dp(DecimalParts { mantissa, scale }, MAX_DECIMALS);
        proof {
            lemma_rounded_is_decimal(mantissa as int, scale as nat, MAX_DECIMALS as nat);
        }
        if rounded.mantissa < 0 {
            assert(rounded.mantissa * unit_factor(rounded.scale as nat) < 0) by (nonlinear_arith)
                requires
                    rounded.mantissa < 0,
                    unit_factor(rounded.scale as nat) >= 1,
            ;
            return None;
        }
        let digits: u128 = rounded.mantissa as u128;
        let factor: u128 = factor_of(rounded.scale);
        assert(digits * factor <= MAX_UNITS * 10000) by (nonlinear_arith)
            requires
                digits <= MAX_UNITS,
                factor <= 10000,
        ;
        let units: u128 = digits * factor;
        if units > MAX_UNITS {
            None
        } else {
            Some(Amount { mantissa: rounded.mantissa as u128, scale: rounded.scale })
        }
    }

    /// The mantissa of the amount: its digits as one whole number.
    pub fn mantissa(&self) -> (r: u128)
        ensures
            r * unit_factor(self.decimals()) == self@,
    {
        self.mantissa
    }

    /// The number of fractional digits among those of the mantissa.
    pub fn scale(&self) -> (r: u32)
        ensures
            r == self.decimals(),
            r <= MAX_DECIMALS,
    {
        proof {
            use_type_invariant(self);
        }
        self.scale
    }

    /// The amount in ten-thousandths.
    pub fn units(&self) -> (r: u128)
        ensures
            r == self@,
            r <= MAX_UNITS,
    {
        proof {
            use_type_invariant(self);
        }
        self.mantissa * factor_of(self.scale)
    }

    /// Whether this amount is at least `other`.
    pub fn ge(&self, other: &Amount) -> (r: bool)
        ensures
            r == (self@ >= other@),
    {
        proof {
            use_type_invariant(self);
            use_type_invariant(other);
        }
        decimal_ge(*self, *other)
    }

    /// The sum of the two amounts, or `None` where it is above `MAX_UNITS`.
    pub fn checked_add(&self, other: &Amount) -> (r: Option<Amount>)
        ensures
            r.is_some() <==> self@ + other@ <= MAX_UNITS,
            r matches Some(sum) ==> sum@ == self@ + other@,
    {
        proof {
            use_type_invariant(self);
            use_type_invariant(other);
        }
        if self.units() > MAX_UNITS - other.units() {
            None
        } else {
            Some(decimal_add(*self, *other))
        }
    }

    /// This amount less `other`, or `None` where `other` is the larger.
    pub fn checked_sub(&self, other: &Amount) -> (r: Option<Amount>)
        ensures
            r.is_some() <==> self@ >= other@,
            r matches Some(rest) ==> rest@ == self@ - other@,
    {
        proof {
            use_type_invariant(self);
            use_type_invariant(other);
        }
        if decimal_ge(*self, *other) {
            Some(decimal_sub(*self, *other))
        } else {
            None
        }
    }
}

/// Two amounts are equal where they stand for the same value, whatever the
/// number of fractional digits each is written with.
impl PartialEq for Amount {
    fn eq(&self, other: &Amount) -> (r: bool) {
        proof {
            use_type_invariant(self);
            use_type_invariant(other);
        }
        decimal_ge(*self, *other) && decimal_ge(*other, *self)
    }
}

impl vstd::std_specs::cmp::PartialEqSpecImpl for Amount {
    open spec fn obeys_eq_spec() -> bool {
        true
    }

    open spec fn eq_spec(&self, other: &Amount) -> bool {
        self@ == other@
    }
}

/// Ten-thousandths in one unit of the last digit at `scale` fractional digits.
fn factor_of(scale: u32) -> (r: u128)
    ensures
        r == unit_factor(scale as nat),
{
    if scale == 0 {
        10000
    } else if scale == 1 {
        1000
    } else if scale == 2 {
        100
    } else if scale == 3 {
        10
    } else {
        1
    }
}

/// Trusted: `Decimal::from_str`. The text is read as `rust_decimal` reads it;
/// the contract only gives that reading its name.
#[verifier::external_body]
pub(crate) fn decimal_from_str(text: &str) -> (r: Option<DecimalParts>)
    ensures
        r matches Some(d) ==> parsed_decimal(text@) == Some((d.mantissa as int, d.scale as nat)),
        r is None ==> parsed_decimal(text@) is None,
{
    match Decimal::from_str(text) {
        Ok(d) => Some(DecimalParts { mantissa: d.mantissa(), scale: d.scale() }),
        Err(_) => None,
    }
}

/// Trusted: `Decimal::round_dp`. A decimal with more than `dp` fractional
/// digits is cut to `dp` digits and rounded to the nearest neighbour, a tie
/// going to the even one; any other decimal comes back unchanged.
#[verifier::external_body]
pub(crate) fn decimal_round_dp(d: DecimalParts, dp: u32) -> (r: DecimalParts)
    requires
        is_decimal(d.mantissa as int, d.scale as nat),
    ensures
        (r.mantissa as int, r.scale as nat) == round_half_even(
            d.mantissa as int,
            d.scale as nat,
            dp as nat,
        ),
{
    let rounded = Decimal::from_i128_with_scale(d.mantissa, d.scale).round_dp(dp);
    DecimalParts { mantissa: rounded.mantissa(), scale: rounded.scale() }
}

/// Trusted: `Decimal`'s `+`. For two amounts whose sum is within the range of
/// amounts the addition is exact, and the sum is an amount again: it is
/// written with at most four fractional digits, as the two are.
#[verifier::external_body]
pub(crate) fn decimal_add(a: Amount, b: Amount) -> (r: Amount)
    requires
        a.valid(),
        b.valid(),
        a@ + b@ <= MAX_UNITS,
    ensures
        r.valid(),
        r@ == a@ + b@,
{
    let sum = Decimal::from_i128_with_scale(a.mantissa as i128, a.scale)
        + Decimal::from_i128_with_scale(b.mantissa as i128, b.scale);
    Amount { mantissa: sum.mantissa() as u128, scale: sum.scale() }
}

/// Trusted: `Decimal`'s `-`. Taking an amount from one that is no smaller is
/// exact, and what is left is an amount again: it is not negative, and it is
/// written with at most four fractional digits, as the two are.
#[verifier::external_body]
pub(crate) fn decimal_sub(a: Amount, b: Amount) -> (r: Amount)
    requires
        a.valid(),
        b.valid(),
        a@ >= b@,
    ensures
        r.valid(),
        r@ == a@ - b@,
{
    let rest = Decimal::from_i128_with_scale(a.mantissa as i128, a.scale)
        - Decimal::from_i128_with_scale(b.mantissa as i128, b.scale);
    Amount { mantissa: rest.mantissa() as u128, scale: rest.scale() }
}

/// Trusted: `Decimal`'s `>=`, which orders decimals by their value, whatever
/// the number of fractional digits each is written with.
#[verifier::external_body]
pub(crate) fn decimal_ge(a: Amount, b: Amount) -> (r: bool)
    requires
        a.valid(),
        b.valid(),
    ensures
        r == (a@ >= b@),
{
    Decimal::from_i128_with_scale(a.mantissa as i128, a.scale)
        >= Decimal::from_i128_with_scale(b.mantissa as i128, b.scale)
}

} // verus!
