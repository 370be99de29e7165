//! Executable big-integer helpers: powers of ten, and the two rounded
//! divisions that the decimal operations are built from.

use crate::arith::{
    lemma_pow10_add, lemma_pow16_grows, lemma_pow16_positive, lemma_round_from_remainder, pow10,
    pow16, round_div,
};
use crate::bigint::{
    copy_of, difference, div_rem_euclid, from_i128, int_value, less_than, product, sum,
};
use bigdecimal::num_bigint::BigInt;
use vstd::prelude::*;

verus! {

/// Ten to the power `e`, by squaring: the power of half the exponent,
/// squared, and once more times ten where the exponent is odd.
pub(crate) fn power_of_ten(e: u64) -> (r: BigInt)
    ensures
        int_value(r) == pow10(e as nat),
    decreases e,
{
    if e == 0 {
        return from_i128(1);
    }
    let half = power_of_ten(e / 2);
    let square = product(&half, &half);
    proof {
        lemma_pow10_add((e / 2) as nat, (e / 2) as nat);
    }
    if e % 2 == 0 {
        square
    } else {
        proof {
            assert(pow10(e as nat) == 10 * pow10((e - 1) as nat));
        }
        product(&from_i128(10), &square)
    }
}

/// `n / d` rounded to the nearest integer, a tie going away from zero.
pub(crate) fn rounded_quotient(n: &BigInt, d: &BigInt) -> (r: BigInt)
    requires
        int_value(*d) != 0,
    ensures
        int_value(r) == round_div(int_value(*n), int_value(*d)),
{
    let zero = from_i128(0);
    let one = from_i128(1);
    // a negative divisor hands its sign to the dividend
    let flip = less_than(d, &zero);
    let dd = if flip { difference(&zero, d) } else { copy_of(d) };
    let nn = if flip { difference(&zero, n) } else { copy_of(n) };
    let negative = less_than(&nn, &zero);
    let m = if negative { difference(&zero, &nn) } else { nn };
    let (q, r) = div_rem_euclid(&m, &dd);
    let twice = sum(&r, &r);
    proof {
        lemma_round_from_remainder(int_value(m), int_value(dd), int_value(q), int_value(r));
    }
    let nearest = if less_than(&twice, &dd) { q } else { sum(&q, &one) };
    if negative {
        difference(&zero, &nearest)
    } else {
        nearest
    }
}

/// `n / 16^e` rounded to the nearest integer, a tie going away from zero.
///
/// The power of sixteen is never built. The magnitude is divided by sixteen
/// once per unit of the exponent, flooring each time; whether the final
/// quotient rounds up is decided by the last remainder alone. Once the
/// quotient reaches zero the rest of the divisions are skipped, so a large
/// exponent costs no more than the dividend has hexadecimal digits.
pub(crate) fn rounded_quotient_by_power_of_sixteen(n: &BigInt, e: u64) -> (r: BigInt)
    ensures
        int_value(r) == round_div(int_value(*n), pow16(e as nat)),
{
    let zero = from_i128(0);
    let one = from_i128(1);
    let eight = from_i128(8);
    let sixteen = from_i128(16);
    let negative = less_than(n, &zero);
    let mut cur = if negative { difference(&zero, n) } else { copy_of(n) };
    let ghost m = int_value(cur);
    let ghost mut rem: int = 0;
    let mut up = false;
    let mut i: u64 = 0;
    while i < e && less_than(&zero, &cur)
        invariant
            i <= e,
            int_value(zero) == 0,
            int_value(eight) == 8,
            int_value(sixteen) == 16,
            0 <= int_value(cur),
            m == int_value(cur) * pow16(i as nat) + rem,
            0 <= rem < pow16(i as nat),
            up == (i >= 1 && 2 * rem >= pow16(i as nat)),
        decreases e - i,
    {
        let (q, h) = div_rem_euclid(&cur, &sixteen);
        up = !less_than(&h, &eight);
        proof {
            let p = pow16(i as nat);
            let c = int_value(cur);
            let qq = int_value(q);
            let hh = int_value(h);
            assert(pow16((i + 1) as nat) == 16 * p);
            assert(c * p + rem == qq * (16 * p) + (hh * p + rem) && 0 <= hh * p + rem < 16 * p
                && (2 * (hh * p + rem) >= 16 * p <==> hh >= 8) && qq >= 0) by (nonlinear_arith)
                requires
                    qq * 16 + hh == c,
                    0 <= hh < 16,
                    0 <= rem < p,
                    0 <= c,
            ;
            rem = hh * p + rem;
        }
        cur = q;
        i = i + 1;
    }
    proof {
        let p = pow16(e as nat);
        lemma_pow16_positive(e as nat);
        if i < e {
            lemma_pow16_grows(i as nat, e as nat);
            lemma_round_from_remainder(m, p, 0, m);
        } else {
            lemma_round_from_remainder(m, p, int_value(cur), rem);
        }
    }
    let nearest = if i == e && up { sum(&cur, &one) } else { cur };
    if negative {
        difference(&zero, &nearest)
    } else {
        nearest
    }
}

} // verus!
