//! `DecimalValue`: a signed decimal number of arbitrary size that keeps a
//! fixed count of digits after the decimal point.
//!
//! A value is an unbounded integer `unscaled` together with a `scale`: it
//! stands for `unscaled / 10^scale`. The scale is the value's precision
//! budget. Sums, differences and products with an integer are exact; a
//! quotient is rounded to the nearest multiple of `10^-scale`, a tie going
//! away from zero, so no operation is off by more than half a unit in the
//! last digit kept. The integer part grows as far as memory allows, so no
//! operation wraps or overflows.

use crate::arith::{
    lemma_pow10_positive, lemma_pow16_positive, lemma_round_div_common_factor,
    lemma_round_div_nearest, magnitude, pow10, pow16, round_div,
};
use crate::bigint::{
    copy_of, difference, div_rem_euclid, from_i128, int_value, less_than, product, sum,
};
use crate::rounding::{power_of_ten, rounded_quotient, rounded_quotient_by_power_of_sixteen};
use bigdecimal::num_bigint::BigInt;
use vstd::prelude::*;

verus! {

/// Why a decimal operation produced no value.
#[derive(Debug, Clone, Copy, PartialEq, Eq, Structural)]
pub enum DecimalError {
    /// The divisor of a division was zero.
    DivisionByZero,
    /// The digits asked for, with their guard margin, pass the largest
    /// precision budget that a value can carry.
    PrecisionExhausted,
}

/// A signed decimal number with `scale` digits after the decimal point.
#[derive(Debug)]
pub struct DecimalValue {
    unscaled: BigInt,
    scale: u32,
}

/// What a `DecimalValue` stands for: the number `unscaled / 10^scale`.
pub struct DecimalView {
    pub unscaled: int,
    pub scale: nat,
}

impl DecimalView {
    /// The integer `n`, held with `scale` digits after the point.
    pub open spec fn of_integer(n: int, scale: nat) -> DecimalView {
        DecimalView { unscaled: n * pow10(scale), scale }
    }

    /// -1, 0 or 1 as the number is negative, zero or positive.
    pub open spec fn sign(self) -> int {
        if self.unscaled < 0 {
            -1
        } else if self.unscaled == 0 {
            0
        } else {
            1
        }
    }

    /// The larger of the two scales: the scale of a result.
    pub open spec fn wider_scale(self, other: DecimalView) -> nat {
        if self.scale >= other.scale {
            self.scale
        } else {
            other.scale
        }
    }

    /// The unscaled integer that stands for the same number at a scale that
    /// is no smaller than the value's own.
    pub open spec fn at_scale(self, scale: nat) -> int
        recommends
            scale >= self.scale,
    {
        self.unscaled * pow10((scale - self.scale) as nat)
    }

    /// The exact sum.
    pub open spec fn plus(self, other: DecimalView) -> DecimalView {
        let scale = self.wider_scale(other);
        DecimalView { unscaled: self.at_scale(scale) + other.at_scale(scale), scale }
    }

    /// The exact difference.
    pub open spec fn minus(self, other: DecimalView) -> DecimalView {
        let scale = self.wider_scale(other);
        DecimalView { unscaled: self.at_scale(scale) - other.at_scale(scale), scale }
    }

    /// The exact product with the integer `k`.
    pub open spec fn times(self, k: int) -> DecimalView {
        DecimalView { unscaled: self.unscaled * k, scale: self.scale }
    }

    /// The quotient, rounded to the nearest multiple of `10^-scale` at the
    /// wider of the two scales, a tie going away from zero.
    pub open spec fn over(self, other: DecimalView) -> DecimalView
        recommends
            other.unscaled != 0,
    {
        let scale = self.wider_scale(other);
        DecimalView {
            unscaled: round_div(self.at_scale(scale) * pow10(other.scale), other.unscaled),
            scale,
        }
    }

    /// Whether the number has no digit but zero beyond the digit `digit`
    /// after the point.
    pub open spec fn exact_to(self, digit: nat) -> bool {
        digit >= self.scale || self.unscaled % pow10((self.scale - digit) as nat) == 0
    }

    /// The quotient by `16^exponent`, rounded once to the nearest multiple of
    /// `10^-scale`, a tie going away from zero.
    pub open spec fn over_power_of_sixteen(self, exponent: nat) -> DecimalView {
        DecimalView { unscaled: round_div(self.unscaled, pow16(exponent)), scale: self.scale }
    }
}

impl View for DecimalValue {
    type V = DecimalView;

    closed spec fn view(&self) -> DecimalView {
        DecimalView { unscaled: int_value(self.unscaled), scale: self.scale as nat }
    }
}

impl Clone for DecimalValue {
    fn clone(&self) -> (r: DecimalValue)
        ensures
            r@ == self@,
    {
        DecimalValue { unscaled: copy_of(&self.unscaled), scale: self.scale }
    }
}

impl DecimalValue {
    /// The integer `n` with `precision_budget` digits after the point. The
    /// conversion is exact.
    pub fn from_integer(n: i128, precision_budget: u32) -> (r: DecimalValue)
        ensures
            r@ == DecimalView::of_integer(n as int, precision_budget as nat),
    {
        let unit = power_of_ten(precision_budget as u64);
        DecimalValue { unscaled: product(&from_i128(n), &unit), scale: precision_budget }
    }

    /// The count of digits that the value keeps after the decimal point.
    pub fn precision_budget(&self) -> (r: u32)
        ensures
            r == self@.scale,
    {
        self.scale
    }

    /// The integer that, divided by `10^scale`, is the value.
    pub fn unscaled_integer(&self) -> (r: &BigInt)
        ensures
            int_value(*r) == self@.unscaled,
    {
        &self.unscaled
    }

    /// -1, 0 or 1 as the value is negative, zero or positive.
    pub fn sign(&self) -> (r: i8)
        ensures
            r == self@.sign(),
    {
        let zero = from_i128(0);
        if less_than(&self.unscaled, &zero) {
            -1
        } else if less_than(&zero, &self.unscaled) {
            1
        } else {
            0
        }
    }

    /// Whether the value is zero.
    pub fn is_zero(&self) -> (r: bool)
        ensures
            r == (self@.unscaled == 0),
    {
        self.sign() == 0
    }

    /// Whether the value is exact to the digit `digit` after the point:
    /// whether every digit that it keeps beyond that one is zero.
    pub fn is_exact_to(&self, digit: u32) -> (r: bool)
        ensures
            r == self@.exact_to(digit as nat),
    {
        if digit >= self.scale {
            return true;
        }
        let unit = power_of_ten((self.scale - digit) as u64);
        proof {
            lemma_pow10_positive((self.scale - digit) as nat);
        }
        let (q, rest) = div_rem_euclid(&self.unscaled, &unit);
        proof {
            vstd::arithmetic::div_mod::lemma_fundamental_div_mod_converse(
                int_value(self.unscaled),
                int_value(unit),
                int_value(q),
                int_value(rest),
            );
        }
        let zero = from_i128(0);
        !less_than(&zero, &rest)
    }

    /// The unscaled integer of the same number at `scale`.
    fn aligned(&self, scale: u32) -> (r: BigInt)
        requires
            scale >= self@.scale,
        ensures
            int_value(r) == self@.at_scale(scale as nat),
    {
        if scale == self.scale {
            assert(pow10(0) == 1);
            copy_of(&self.unscaled)
        } else {
            let factor = power_of_ten((scale - self.scale) as u64);
            product(&self.unscaled, &factor)
        }
    }

    /// The sum of the two values, exact, at the wider of their scales.
    pub fn add(&self, other: &DecimalValue) -> (r: DecimalValue)
        ensures
            r@ == self@.plus(other@),
    {
        let scale = if self.scale >= other.scale { self.scale } else { other.scale };
        let a = self.aligned(scale);
        let b = other.aligned(scale);
        DecimalValue { unscaled: sum(&a, &b), scale }
    }

    /// The difference of the two values, exact, at the wider of their scales.
    pub fn subtract(&self, other: &DecimalValue) -> (r: DecimalValue)
        ensures
            r@ == self@.minus(other@),
    {
        let scale = if self.scale >= other.scale { self.scale } else { other.scale };
        let a = self.aligned(scale);
        let b = other.aligned(scale);
        DecimalValue { unscaled: difference(&a, &b), scale }
    }

    /// The product of the value and the integer `k`, exact.
    pub fn multiply_small(&self, k: i64) -> (r: DecimalValue)
        ensures
            r@ == self@.times(k as int),
    {
        DecimalValue { unscaled: product(&self.unscaled, &from_i128(k as i128)), scale: self.scale }
    }

    /// The quotient of the two values at the wider of their scales, rounded
    /// to the nearest, a tie going away from zero. A zero divisor, and
    /// nothing else, is an error.
    pub fn divide(&self, other: &DecimalValue) -> (r: Result<DecimalValue, DecimalError>)
        ensures
            other@.unscaled == 0 ==> r == Err::<DecimalValue, DecimalError>(
                DecimalError::DivisionByZero,
            ),
            other@.unscaled != 0 ==> r is Ok && r->Ok_0@ == self@.over(other@),
    {
        if other.is_zero() {
            return Err(DecimalError::DivisionByZero);
        }
        let scale = if self.scale >= other.scale { self.scale } else { other.scale };
        let a = self.aligned(scale);
        let shift = power_of_ten(other.scale as u64);
        let numerator = product(&a, &shift);
        Ok(DecimalValue { unscaled: rounded_quotient(&numerator, &other.unscaled), scale })
    }

    /// The value divided by `16^exponent`, rounded once to the nearest, a
    /// tie going away from zero. The power of sixteen is never built, so
    /// no exponent is too large.
    pub fn scale_by_power_of_sixteen(&self, exponent: u64) -> (r: DecimalValue)
        ensures
            r@ == self@.over_power_of_sixteen(exponent as nat),
    {
        DecimalValue {
            unscaled: rounded_quotient_by_power_of_sixteen(&self.unscaled, exponent),
            scale: self.scale,
        }
    }
}

/// Two values of one scale are added and subtracted digit for digit: no
/// rescaling takes place.
pub proof fn lemma_same_scale(a: DecimalView, b: DecimalView)
    requires
        a.scale == b.scale,
    ensures
        a.plus(b) == (DecimalView { unscaled: a.unscaled + b.unscaled, scale: a.scale }),
        a.minus(b) == (DecimalView { unscaled: a.unscaled - b.unscaled, scale: a.scale }),
{
    assert(pow10(0) == 1);
    assert(a.at_scale(a.scale) == a.unscaled * 1);
    assert(b.at_scale(a.scale) == b.unscaled * 1);
}

/// The quotient of two integers held at one scale is the rounded quotient
/// of the dividend, taken at that scale, by the divisor.
pub proof fn lemma_integer_quotient(n: int, d: int, scale: nat)
    requires
        d != 0,
    ensures
        DecimalView::of_integer(n, scale).over(DecimalView::of_integer(d, scale)) == (DecimalView {
            unscaled: round_div(n * pow10(scale), d),
            scale,
        }),
{
    let p = pow10(scale);
    lemma_pow10_positive(scale);
    let a = DecimalView::of_integer(n, scale);
    let b = DecimalView::of_integer(d, scale);
    assert(pow10(0) == 1);
    assert(a.at_scale(scale) == (n * p) * 1);
    lemma_round_div_common_factor(n * p, d, p);
}

/// The rounded quotient is nearest: the quotient times the divisor differs
/// from the dividend by half a unit of the last digit, times the divisor, at
/// most.
pub proof fn lemma_quotient_within_half_unit(a: DecimalView, b: DecimalView)
    requires
        b.unscaled != 0,
    ensures
        2 * magnitude(
            a.over(b).unscaled * b.unscaled - a.at_scale(a.wider_scale(b)) * pow10(b.scale),
        ) <= magnitude(b.unscaled),
{
    lemma_round_div_nearest(
        a.at_scale(a.wider_scale(b)) * pow10(b.scale),
        b.unscaled,
    );
}

/// Division by a power of sixteen is rounded correctly: the result times
/// the power differs from the dividend by half the power at most.
pub proof fn lemma_power_of_sixteen_within_half_unit(a: DecimalView, exponent: nat)
    ensures
        2 * magnitude(a.over_power_of_sixteen(exponent).unscaled * pow16(exponent) - a.unscaled)
            <= pow16(exponent),
{
    lemma_pow16_positive(exponent);
    lemma_round_div_nearest(a.unscaled, pow16(exponent));
}

} // verus!
