//! The two series for pi, summed term by term over a range of indices.
//!
//! Each term is computed from its index alone and rounded at the budget of
//! the plan; the sum of the terms is exact. The value of a range is
//! therefore the sum of the values of its parts, digit for digit.

use crate::arith::{
    lemma_pow10_positive, lemma_pow16_grows, lemma_pow16_positive, pow10, pow16, round_div,
};
use crate::decimal::{lemma_integer_quotient, lemma_same_scale, DecimalValue, DecimalView};
use crate::plan::PrecisionPlan;
use vstd::prelude::*;

verus! {

/// The bracket of term `i` of the Bailey-Borwein-Plouffe series at `scale`:
/// `4/(8i+1) - 2/(8i+4) - 1/(8i+5) - 1/(8i+6)`, each quotient rounded to the
/// nearest.
pub open spec fn bbp_bracket(i: nat, scale: nat) -> int {
    let unit = pow10(scale);
    round_div(4 * unit, (8 * i + 1) as int) - round_div(2 * unit, (8 * i + 4) as int) - round_div(
        1 * unit,
        (8 * i + 5) as int,
    ) - round_div(1 * unit, (8 * i + 6) as int)
}

/// Term `i` of the Bailey-Borwein-Plouffe series at `scale`: the bracket
/// divided by `16^i`, rounded to the nearest.
pub open spec fn bbp_term(i: nat, scale: nat) -> int {
    round_div(bbp_bracket(i, scale), pow16(i))
}

/// The sum of the terms with index in `[start, end)`, as an unscaled integer.
pub open spec fn bbp_sum(start: nat, end: nat, scale: nat) -> int
    decreases end,
{
    if end <= start {
        0
    } else {
        bbp_sum(start, (end - 1) as nat, scale) + bbp_term((end - 1) as nat, scale)
    }
}

/// What `evaluate_bbp` returns for the range `[start, end)` at `scale`.
pub open spec fn bbp_value(start: nat, end: nat, scale: nat) -> DecimalView {
    DecimalView { unscaled: bbp_sum(start, end, scale), scale }
}

/// Term `i` of the Leibniz series at `scale`: `(-1)^i / (2i+1)`, rounded to
/// the nearest.
pub open spec fn leibniz_term(i: nat, scale: nat) -> int {
    round_div((if i % 2 == 0 { 1int } else { -1int }) * pow10(scale), (2 * i + 1) as int)
}

/// The sum of the Leibniz terms with index in `[start, end)`, as an unscaled
/// integer.
pub open spec fn leibniz_sum(start: nat, end: nat, scale: nat) -> int
    decreases end,
{
    if end <= start {
        0
    } else {
        leibniz_sum(start, (end - 1) as nat, scale) + leibniz_term((end - 1) as nat, scale)
    }
}

/// What `evaluate_leibniz` returns for the range `[start, end)` at `scale`:
/// four times the sum of the terms.
pub open spec fn leibniz_value(start: nat, end: nat, scale: nat) -> DecimalView {
    DecimalView { unscaled: leibniz_sum(start, end, scale) * 4, scale }
}

/// The sum over a range is the sum over its two parts.
pub proof fn lemma_bbp_sum_split(start: nat, mid: nat, end: nat, scale: nat)
    requires
        start <= mid <= end,
    ensures
        bbp_sum(start, end, scale) == bbp_sum(start, mid, scale) + bbp_sum(mid, end, scale),
    decreases end,
{
    if mid < end {
        lemma_bbp_sum_split(start, mid, (end - 1) as nat, scale);
    }
}

/// The sum over a range is the sum over its two parts.
pub proof fn lemma_leibniz_sum_split(start: nat, mid: nat, end: nat, scale: nat)
    requires
        start <= mid <= end,
    ensures
        leibniz_sum(start, end, scale) == leibniz_sum(start, mid, scale) + leibniz_sum(
            mid,
            end,
            scale,
        ),
    decreases end,
{
    if mid < end {
        lemma_leibniz_sum_split(start, mid, (end - 1) as nat, scale);
    }
}

/// Splitting a range of the Bailey-Borwein-Plouffe series at any index
/// between its ends and adding the values of the two parts gives the value
/// of the whole range, exactly.
pub proof fn lemma_bbp_additive(start: nat, mid: nat, end: nat, scale: nat)
    requires
        start < mid < end,
    ensures
        bbp_value(start, end, scale) == bbp_value(start, mid, scale).plus(
            bbp_value(mid, end, scale),
        ),
{
    lemma_bbp_sum_split(start, mid, end, scale);
    lemma_same_scale(bbp_value(start, mid, scale), bbp_value(mid, end, scale));
}

/// Splitting a range of the Leibniz series at any index between its ends and
/// adding the values of the two parts gives the value of the whole range,
/// exactly.
pub proof fn lemma_leibniz_additive(start: nat, mid: nat, end: nat, scale: nat)
    requires
        start < mid < end,
    ensures
        leibniz_value(start, end, scale) == leibniz_value(start, mid, scale).plus(
            leibniz_value(mid, end, scale),
        ),
{
    lemma_leibniz_sum_split(start, mid, end, scale);
    lemma_same_scale(leibniz_value(start, mid, scale), leibniz_value(mid, end, scale));
    assert((leibniz_sum(start, mid, scale) + leibniz_sum(mid, end, scale)) * 4 == leibniz_sum(
        start,
        mid,
        scale,
    ) * 4 + leibniz_sum(mid, end, scale) * 4);
}

/// A range without terms has the value zero, in both series.
pub proof fn lemma_empty_range_is_zero(start: nat, end: nat, scale: nat)
    requires
        end <= start,
    ensures
        bbp_value(start, end, scale) == DecimalView::of_integer(0, scale),
        leibniz_value(start, end, scale) == DecimalView::of_integer(0, scale),
{
}

/// A non-negative dividend and a positive divisor give a rounded quotient
/// between zero and the dividend.
proof fn lemma_round_div_bounds(n: int, d: int)
    requires
        0 <= n,
        1 <= d,
    ensures
        0 <= round_div(n, d) <= n,
{
    let q = n / d;
    let r = n % d;
    vstd::arithmetic::div_mod::lemma_fundamental_div_mod(n, d);
    vstd::arithmetic::div_mod::lemma_mod_bound(n, d);
    vstd::arithmetic::div_mod::lemma_div_pos_is_pos(n, d);
    assert(n == q * d + r) by (nonlinear_arith)
        requires
            n == d * q + r,
    ;
    crate::arith::lemma_round_from_remainder(n, d, q, r);
    assert(q + 1 <= n || 2 * r < d) by (nonlinear_arith)
        requires
            n == q * d + r,
            0 <= r < d,
            1 <= d,
            0 <= q,
    ;
}

/// A dividend of less than half the divisor in magnitude rounds to zero.
proof fn lemma_round_div_small(n: int, d: int)
    requires
        0 < d,
        2 * n < d,
        2 * (-n) < d,
    ensures
        round_div(n, d) == 0,
{
    if n < 0 {
        crate::arith::lemma_round_from_remainder(-n, d, 0, -n);
    } else {
        crate::arith::lemma_round_from_remainder(n, d, 0, n);
    }
}

/// A rounded quotient of zero shows that the dividend is below half the
/// divisor.
proof fn lemma_round_div_zero_means_small(n: int, d: int)
    requires
        0 <= n,
        0 < d,
        round_div(n, d) == 0,
    ensures
        2 * n < d,
{
    let q = n / d;
    let r = n % d;
    vstd::arithmetic::div_mod::lemma_fundamental_div_mod(n, d);
    vstd::arithmetic::div_mod::lemma_mod_bound(n, d);
    vstd::arithmetic::div_mod::lemma_div_pos_is_pos(n, d);
    assert(n == q * d + r) by (nonlinear_arith)
        requires
            n == d * q + r,
    ;
    crate::arith::lemma_round_from_remainder(n, d, q, r);
}

/// Once four units divided by `16^i` round to zero, every term from index
/// `i` on is zero.
proof fn lemma_bbp_term_vanishes(i: nat, j: nat, scale: nat)
    requires
        i <= j,
        round_div(4 * pow10(scale), pow16(i)) == 0,
    ensures
        bbp_term(j, scale) == 0,
{
    let p = pow10(scale);
    lemma_pow10_positive(scale);
    lemma_pow16_positive(i);
    lemma_round_div_zero_means_small(4 * p, pow16(i));
    if i < j {
        lemma_pow16_grows(i, j);
    }
    lemma_round_div_bounds(4 * p, (8 * j + 1) as int);
    lemma_round_div_bounds(2 * p, (8 * j + 4) as int);
    lemma_round_div_bounds(1 * p, (8 * j + 5) as int);
    lemma_round_div_bounds(1 * p, (8 * j + 6) as int);
    lemma_round_div_small(bbp_bracket(j, scale), pow16(j));
}

/// Once four units divided by `16^i` round to zero, the sum of any range
/// that starts at `i` is zero.
proof fn lemma_bbp_tail_vanishes(i: nat, end: nat, scale: nat)
    requires
        round_div(4 * pow10(scale), pow16(i)) == 0,
    ensures
        bbp_sum(i, end, scale) == 0,
    decreases end,
{
    if i < end {
        lemma_bbp_tail_vanishes(i, (end - 1) as nat, scale);
        lemma_bbp_term_vanishes(i, (end - 1) as nat, scale);
    }
}

/// The integer `m * i + c` at `scale`, built from the index as the series
/// do: the index, times `m`, plus `c`.
fn affine_of_index(i: u64, m: i64, c: &DecimalValue, Ghost(cv): Ghost<int>, scale: u32) -> (r:
    DecimalValue)
    requires
        c@ == DecimalView::of_integer(cv, scale as nat),
    ensures
        r@ == DecimalView::of_integer(m * i + cv, scale as nat),
{
    let r = DecimalValue::from_integer(i as i128, scale).multiply_small(m).add(c);
    proof {
        let p = pow10(scale as nat);
        assert(pow10(0) == 1);
        assert(((i * p) * m) * 1 + (cv * p) * 1 == (m * i + cv) * p) by (nonlinear_arith);
    }
    r
}

/// The sum of the terms of the Bailey-Borwein-Plouffe series with index in
/// `[start_index, end_index)`, every operation rounded at the budget of the
/// plan. An empty range gives zero.
///
/// The terms shrink by a factor of sixteen from one to the next. Once they
/// are certain to round to zero at the budget, the rest of the range is
/// skipped: the result is the same as if every term had been added.
pub fn evaluate_bbp(start_index: u64, end_index: u64, plan: &PrecisionPlan) -> (r: DecimalValue)
    ensures
        r@ == bbp_value(start_index as nat, end_index as nat, plan.precision_budget as nat),
        end_index <= start_index ==> r@ == DecimalView::of_integer(
            0,
            plan.precision_budget as nat,
        ),
{
    let scale = plan.precision_budget;
    let ghost s = scale as nat;
    let one = DecimalValue::from_integer(1, scale);
    let two = DecimalValue::from_integer(2, scale);
    let four = DecimalValue::from_integer(4, scale);
    let five = DecimalValue::from_integer(5, scale);
    let six = DecimalValue::from_integer(6, scale);
    let mut total = DecimalValue::from_integer(0, scale);
    if end_index <= start_index {
        return total;
    }
    let mut i: u64 = start_index;
    while i < end_index
        invariant
            start_index <= i <= end_index,
            scale == plan.precision_budget,
            s == scale as nat,
            one@ == DecimalView::of_integer(1, s),
            two@ == DecimalView::of_integer(2, s),
            four@ == DecimalView::of_integer(4, s),
            five@ == DecimalView::of_integer(5, s),
            six@ == DecimalView::of_integer(6, s),
            total@ == bbp_value(start_index as nat, i as nat, s),
        decreases end_index - i,
    {
        let d1 = affine_of_index(i, 8, &one, Ghost(1), scale);
        let d4 = affine_of_index(i, 8, &four, Ghost(4), scale);
        let d5 = affine_of_index(i, 8, &five, Ghost(5), scale);
        let d6 = affine_of_index(i, 8, &six, Ghost(6), scale);
        proof {
            lemma_pow10_positive(s);
            assert((8 * i + 1) * pow10(s) != 0 && (8 * i + 4) * pow10(s) != 0 && (8 * i + 5)
                * pow10(s) != 0 && (8 * i + 6) * pow10(s) != 0) by (nonlinear_arith)
                requires
                    pow10(s) >= 1,
                    i >= 0,
            ;
            lemma_integer_quotient(4, 8 * i + 1, s);
            lemma_integer_quotient(2, 8 * i + 4, s);
            lemma_integer_quotient(1, 8 * i + 5, s);
            lemma_integer_quotient(1, 8 * i + 6, s);
            assert(pow10(0) == 1);
        }
        let a = four.divide(&d1).unwrap();
        let b = two.divide(&d4).unwrap();
        let c = one.divide(&d5).unwrap();
        let d = one.divide(&d6).unwrap();
        let ab = a.subtract(&b);
        let abc = ab.subtract(&c);
        let bracket = abc.subtract(&d);
        proof {
            lemma_same_scale(a@, b@);
            lemma_same_scale(ab@, c@);
            lemma_same_scale(abc@, d@);
            assert(bracket@.unscaled == bbp_bracket(i as nat, s));
        }
        let term = bracket.scale_by_power_of_sixteen(i);
        proof {
            lemma_same_scale(total@, term@);
        }
        total = total.add(&term);
        if term.is_zero() && four.scale_by_power_of_sixteen(i).is_zero() {
            proof {
                lemma_bbp_tail_vanishes(i as nat, end_index as nat, s);
                lemma_bbp_sum_split(start_index as nat, i as nat, end_index as nat, s);
            }
            return total;
        }
        i = i + 1;
    }
    total
}

/// Four times the sum of the terms of the Leibniz series with index in
/// `[start_index, end_index)`, every quotient rounded at the budget of the
/// plan. An empty range gives zero.
///
/// Every term of the range is added: the series converges so slowly that the
/// range alone decides how close the result comes.
pub fn evaluate_leibniz(start_index: u64, end_index: u64, plan: &PrecisionPlan) -> (r:
    DecimalValue)
    ensures
        r@ == leibniz_value(start_index as nat, end_index as nat, plan.precision_budget as nat),
        end_index <= start_index ==> r@ == DecimalView::of_integer(
            0,
            plan.precision_budget as nat,
        ),
{
    let scale = plan.precision_budget;
    let ghost s = scale as nat;
    let one = DecimalValue::from_integer(1, scale);
    let mut numerator = if start_index % 2 == 0 {
        DecimalValue::from_integer(1, scale)
    } else {
        DecimalValue::from_integer(-1, scale)
    };
    let mut total = DecimalValue::from_integer(0, scale);
    let mut i: u64 = start_index;
    while i < end_index
        invariant
            start_index <= i || end_index <= start_index,
            i <= end_index || end_index <= start_index,
            i == start_index || start_index < end_index,
            s == scale as nat,
            one@ == DecimalView::of_integer(1, s),
            numerator@ == DecimalView::of_integer(if i % 2 == 0 { 1int } else { -1int }, s),
            total@ == (DecimalView { unscaled: leibniz_sum(start_index as nat, i as nat, s), scale: s }),
        decreases end_index - i,
    {
        let denominator = affine_of_index(i, 2, &one, Ghost(1), scale);
        proof {
            lemma_pow10_positive(s);
            assert((2 * i + 1) * pow10(s) != 0) by (nonlinear_arith)
                requires
                    pow10(s) >= 1,
                    i >= 0,
            ;
            lemma_integer_quotient(if i % 2 == 0 { 1int } else { -1int }, 2 * i + 1, s);
            assert(pow10(0) == 1);
        }
        let term = numerator.divide(&denominator).unwrap();
        proof {
            lemma_same_scale(total@, term@);
        }
        total = total.add(&term);
        numerator = numerator.multiply_small(-1);
        proof {
            assert((1 * pow10(s)) * (-1) == (-1) * pow10(s) && ((-1) * pow10(s)) * (-1) == 1
                * pow10(s)) by (nonlinear_arith);
        }
        i = i + 1;
    }
    total.multiply_small(4)
}

} // verus!
