//! Integer arithmetic behind the decimal operations: powers of ten and of
//! sixteen, and division rounded to the nearest integer.

use vstd::arithmetic::div_mod::lemma_fundamental_div_mod_converse;
use vstd::prelude::*;

verus! {

/// Ten to the power `e`.
pub open spec fn pow10(e: nat) -> int
    decreases e,
{
    if e == 0 {
        1
    } else {
        10 * pow10((e - 1) as nat)
    }
}

/// Sixteen to the power `e`.
pub open spec fn pow16(e: nat) -> int
    decreases e,
{
    if e == 0 {
        1
    } else {
        16 * pow16((e - 1) as nat)
    }
}

/// The absolute value of `x`.
pub open spec fn magnitude(x: int) -> int {
    if x < 0 {
        -x
    } else {
        x
    }
}

/// `n / d` rounded to the nearest integer, a tie going away from zero, for a
/// positive divisor.
pub open spec fn round_div_pos(n: int, d: int) -> int {
    if n < 0 {
        -((2 * (-n) + d) / (2 * d))
    } else {
        (2 * n + d) / (2 * d)
    }
}

/// `n / d` rounded to the nearest integer, a tie going away from zero.
/// A negative divisor hands its sign to the dividend first, so the
/// definition covers every divisor but zero.
pub open spec fn round_div(n: int, d: int) -> int {
    if d < 0 {
        round_div_pos(-n, -d)
    } else {
        round_div_pos(n, d)
    }
}

pub proof fn lemma_pow10_positive(e: nat)
    ensures
        pow10(e) >= 1,
    decreases e,
{
    if e > 0 {
        lemma_pow10_positive((e - 1) as nat);
    }
}

pub proof fn lemma_pow16_positive(e: nat)
    ensures
        pow16(e) >= 1,
    decreases e,
{
    if e > 0 {
        lemma_pow16_positive((e - 1) as nat);
    }
}

/// Powers of ten multiply by adding exponents.
pub proof fn lemma_pow10_add(a: nat, b: nat)
    ensures
        pow10(a + b) == pow10(a) * pow10(b),
    decreases a,
{
    if a == 0 {
        assert(pow10(0 + b) == 1 * pow10(b));
    } else {
        lemma_pow10_add((a - 1) as nat, b);
        assert(pow10(a + b) == 10 * pow10((a + b - 1) as nat));
        assert((a + b - 1) as nat == (a - 1) as nat + b);
        assert(10 * (pow10((a - 1) as nat) * pow10(b)) == (10 * pow10((a - 1) as nat)) * pow10(b))
            by (nonlinear_arith);
    }
}

/// A larger exponent gives a larger power of sixteen.
pub proof fn lemma_pow16_grows(i: nat, e: nat)
    requires
        i < e,
    ensures
        16 * pow16(i) <= pow16(e),
    decreases e,
{
    lemma_pow16_positive((e - 1) as nat);
    if e == i + 1 {
        assert((e - 1) as nat == i);
    } else {
        lemma_pow16_grows(i, (e - 1) as nat);
    }
}

/// The rounded quotient of a non-negative dividend, from its floor quotient
/// and remainder: one more than the floor exactly where the remainder is at
/// least half the divisor.
pub proof fn lemma_round_from_remainder(m: int, d: int, q: int, r: int)
    requires
        0 <= m,
        0 < d,
        m == q * d + r,
        0 <= r < d,
    ensures
        round_div_pos(m, d) == if 2 * r >= d { q + 1 } else { q },
{
    if 2 * r >= d {
        assert(2 * m + d == (q + 1) * (2 * d) + (2 * r - d)) by (nonlinear_arith)
            requires
                m == q * d + r,
        ;
        lemma_fundamental_div_mod_converse(2 * m + d, 2 * d, q + 1, 2 * r - d);
    } else {
        assert(2 * m + d == q * (2 * d) + (2 * r + d)) by (nonlinear_arith)
            requires
                m == q * d + r,
        ;
        lemma_fundamental_div_mod_converse(2 * m + d, 2 * d, q, 2 * r + d);
    }
}

/// Rounding commutes with negating the dividend.
pub proof fn lemma_round_div_negate(n: int, d: int)
    requires
        d != 0,
    ensures
        round_div(-n, d) == -round_div(n, d),
{
    let dd = magnitude(d);
    assert((2 * 0 + dd) / (2 * dd) == 0) by {
        lemma_fundamental_div_mod_converse(dd, 2 * dd, 0, dd);
    }
}

/// The rounded quotient is a nearest integer: it differs from the exact
/// quotient by half a unit at most.
pub proof fn lemma_round_div_nearest(n: int, d: int)
    requires
        d != 0,
    ensures
        2 * magnitude(round_div(n, d) * d - n) <= magnitude(d),
{
    let dd = magnitude(d);
    let m = magnitude(n);
    let q = m / dd;
    let r = m % dd;
    vstd::arithmetic::div_mod::lemma_fundamental_div_mod(m, dd);
    vstd::arithmetic::div_mod::lemma_mod_bound(m, dd);
    assert(m == q * dd + r) by (nonlinear_arith)
        requires
            m == dd * q + r,
    ;
    lemma_round_from_remainder(m, dd, q, r);
    let k = round_div_pos(m, dd);
    assert(2 * magnitude(k * dd - m) <= dd) by (nonlinear_arith)
        requires
            m == q * dd + r,
            0 <= r < dd,
            k == if 2 * r >= dd { q + 1 } else { q },
    ;
    // carry the signs back
    let s = round_div(n, d);
    assert(s == k || s == -k) by {
        lemma_round_div_negate(n, d);
        lemma_round_div_negate(-n, d);
    }
    assert(magnitude(s * d - n) == magnitude(k * dd - m)) by (nonlinear_arith)
        requires
            dd == magnitude(d),
            m == magnitude(n),
            k == round_div_pos(m, dd),
            s == round_div(n, d),
            d != 0,
            k >= 0,
    {
    }
}

/// A dividend that is a multiple of the divisor is divided exactly.
pub proof fn lemma_round_div_exact(q: int, d: int)
    requires
        d != 0,
    ensures
        round_div(q * d, d) == q,
{
    let dd = magnitude(d);
    let n = if d < 0 { -(q * d) } else { q * d };
    assert(n == q * dd) by (nonlinear_arith)
        requires
            n == if d < 0 { -(q * d) } else { q * d },
            dd == magnitude(d),
    ;
    assert(round_div(q * d, d) == round_div_pos(n, dd));
    if q >= 0 {
        assert(q * dd >= 0) by (nonlinear_arith)
            requires
                q >= 0,
                dd > 0,
        ;
        lemma_round_from_remainder(n, dd, q, 0);
    } else {
        assert(-(q * dd) == (-q) * dd && q * dd < 0) by (nonlinear_arith)
            requires
                q < 0,
                dd > 0,
        ;
        lemma_round_from_remainder(-n, dd, -q, 0);
    }
}

/// A common positive factor of dividend and divisor does not change the
/// rounded quotient.
pub proof fn lemma_round_div_common_factor(n: int, d: int, c: int)
    requires
        d != 0,
        c > 0,
    ensures
        round_div(n * c, d * c) == round_div(n, d),
{
    let dd = magnitude(d);
    let nn = if d < 0 { -n } else { n };
    let m = magnitude(nn);
    assert((d * c < 0 <==> d < 0) && -(n * c) == (-n) * c && -(d * c) == (-d) * c)
        by (nonlinear_arith)
        requires
            c > 0,
    ;
    assert(round_div(n * c, d * c) == round_div_pos(nn * c, dd * c));
    assert(round_div(n, d) == round_div_pos(nn, dd));
    assert((nn * c < 0 <==> nn < 0) && magnitude(nn * c) == m * c) by (nonlinear_arith)
        requires
            c > 0,
            m == magnitude(nn),
    ;
    assert(2 * (m * c) + dd * c == c * (2 * m + dd) && 2 * (dd * c) == c * (2 * dd))
        by (nonlinear_arith);
    vstd::arithmetic::div_mod::lemma_div_multiples_vanish_quotient(c, 2 * m + dd, 2 * dd);
}

} // verus!
