//! Decimal notation: the digits of a value, written with a fixed count of
//! digits after the point.

use crate::arith::{lemma_pow10_add, lemma_pow10_positive, magnitude, pow10};
use crate::bigint::{
    copy_of, difference, div_rem_euclid, from_i128, int_value, less_than, product, to_u64,
};
use crate::decimal::{DecimalValue, DecimalView};
use crate::rounding::power_of_ten;
use bigdecimal::num_bigint::BigInt;
use vstd::arithmetic::div_mod::{
    lemma_div_denominator, lemma_div_multiples_vanish, lemma_fundamental_div_mod_converse,
    lemma_mod_bound,
};
use vstd::prelude::*;
use vstd::string::StringExecFns;

verus! {

/// The character of one decimal digit.
pub open spec fn digit_char(d: int) -> char
    recommends
        0 <= d < 10,
{
    if d == 0 {
        '0'
    } else if d == 1 {
        '1'
    } else if d == 2 {
        '2'
    } else if d == 3 {
        '3'
    } else if d == 4 {
        '4'
    } else if d == 5 {
        '5'
    } else if d == 6 {
        '6'
    } else if d == 7 {
        '7'
    } else if d == 8 {
        '8'
    } else {
        '9'
    }
}

/// The decimal digit of `n` that counts units of `10^position`.
pub open spec fn digit_at(n: int, position: nat) -> int {
    (n / pow10(position)) % 10
}

/// The lowest `width` decimal digits of the non-negative `n`, the most
/// significant first, with leading zeros where `n` has fewer digits.
pub open spec fn low_digits(n: int, width: nat) -> Seq<char>
    decreases width,
{
    if width == 0 {
        Seq::empty()
    } else {
        seq![digit_char(digit_at(n, (width - 1) as nat))] + low_digits(n, (width - 1) as nat)
    }
}

/// The count of decimal digits of the non-negative `n`; zero has one.
pub open spec fn digit_count(n: int) -> nat
    decreases n,
{
    if n < 10 {
        1
    } else {
        1 + digit_count(n / 10)
    }
}

/// The non-negative `n` in decimal, without leading zeros.
pub open spec fn natural_string(n: int) -> Seq<char> {
    low_digits(n, digit_count(n))
}

/// The integer `n` in decimal: a minus sign where it is negative, then its
/// magnitude.
pub open spec fn integer_string(n: int) -> Seq<char> {
    (if n < 0 {
        seq!['-']
    } else {
        Seq::empty()
    }) + natural_string(magnitude(n))
}

impl DecimalView {
    /// The magnitude of the number in units of `10^-digits`, what lies
    /// beyond that digit cut off.
    pub open spec fn truncated_magnitude(self, digits: nat) -> int {
        if digits >= self.scale {
            magnitude(self.unscaled) * pow10((digits - self.scale) as nat)
        } else {
            magnitude(self.unscaled) / pow10((self.scale - digits) as nat)
        }
    }

    /// The number in decimal notation with exactly `digits` digits after the
    /// point: a minus sign where the number is negative, the integer part
    /// without leading zeros, the point, and the fraction, padded with zeros
    /// or cut off after the last digit asked for.
    pub open spec fn fixed_string(self, digits: nat) -> Seq<char> {
        let t = self.truncated_magnitude(digits);
        (if self.unscaled < 0 {
            seq!['-']
        } else {
            Seq::empty()
        }) + natural_string(t / pow10(digits)) + seq!['.'] + low_digits(t, digits)
    }
}

/// The digits of `low_digits`, one by one.
pub proof fn lemma_low_digits_index(n: int, width: nat, index: int)
    requires
        0 <= index < width,
    ensures
        low_digits(n, width).len() == width,
        low_digits(n, width)[index] == digit_char(digit_at(n, (width - 1 - index) as nat)),
    decreases width,
{
    lemma_low_digits_len(n, (width - 1) as nat);
    if index > 0 {
        lemma_low_digits_index(n, (width - 1) as nat, index - 1);
    }
}

pub proof fn lemma_low_digits_len(n: int, width: nat)
    ensures
        low_digits(n, width).len() == width,
    decreases width,
{
    if width > 0 {
        lemma_low_digits_len(n, (width - 1) as nat);
    }
}

/// Dividing by ten once more moves to the next power of ten.
proof fn lemma_next_power(n: int, k: nat)
    requires
        0 <= n,
    ensures
        (n / pow10(k)) / 10 == n / pow10(k + 1),
        0 <= n / pow10(k),
{
    lemma_pow10_positive(k);
    lemma_div_denominator(n, pow10(k), 10);
    assert(pow10(k) * 10 == pow10(k + 1));
    vstd::arithmetic::div_mod::lemma_div_pos_is_pos(n, pow10(k));
}

/// A multiple of `10^width` ends in `width` zeros.
proof fn lemma_low_digits_of_multiple(q: int, width: nat, whole: nat)
    requires
        0 <= q,
        width <= whole,
    ensures
        low_digits(q * pow10(whole), width) =~= Seq::new(width, |i: int| '0'),
    decreases width,
{
    if width > 0 {
        let w = (width - 1) as nat;
        lemma_low_digits_of_multiple(q, w, whole);
        let rest = (whole - w) as nat;
        lemma_pow10_add(w, rest);
        lemma_pow10_positive(w);
        // q * 10^whole == 10^w * (q * 10^rest), and 10^rest is a multiple of ten
        assert(q * pow10(whole) == pow10(w) * (q * pow10(rest))) by (nonlinear_arith)
            requires
                pow10(whole) == pow10(w) * pow10(rest),
        ;
        lemma_div_multiples_vanish(q * pow10(rest), pow10(w));
        assert(pow10(rest) == 10 * pow10((rest - 1) as nat));
        assert(q * pow10(rest) == (q * pow10((rest - 1) as nat)) * 10 + 0) by (nonlinear_arith)
            requires
                pow10(rest) == 10 * pow10((rest - 1) as nat),
        ;
        lemma_fundamental_div_mod_converse(
            q * pow10(rest),
            10,
            q * pow10((rest - 1) as nat),
            0,
        );
        assert(digit_at(q * pow10(whole), w) == 0);
    }
}

/// An integer held at any scale and written with any count of digits after
/// the point reads as the integer, the point, and that many zeros.
pub proof fn lemma_integer_round_trip(n: int, scale: nat, digits: nat)
    ensures
        DecimalView::of_integer(n, scale).fixed_string(digits) == integer_string(n) + seq!['.']
            + Seq::new(digits, |i: int| '0'),
{
    let v = DecimalView::of_integer(n, scale);
    let m = magnitude(n);
    let t = v.truncated_magnitude(digits);
    lemma_pow10_positive(scale);
    lemma_pow10_positive(digits);
    assert(magnitude(n * pow10(scale)) == m * pow10(scale) && (n * pow10(scale) < 0 <==> n < 0))
        by (nonlinear_arith)
        requires
            pow10(scale) >= 1,
            m == magnitude(n),
    ;
    assert(t == m * pow10(digits)) by {
        if digits >= scale {
            let extra = (digits - scale) as nat;
            lemma_pow10_add(scale, extra);
            assert((m * pow10(scale)) * pow10(extra) == m * pow10(digits)) by (nonlinear_arith)
                requires
                    pow10(digits) == pow10(scale) * pow10(extra),
            ;
        } else {
            let cut = (scale - digits) as nat;
            lemma_pow10_add(digits, cut);
            lemma_pow10_positive(cut);
            assert(m * pow10(scale) == pow10(cut) * (m * pow10(digits))) by (nonlinear_arith)
                requires
                    pow10(scale) == pow10(digits) * pow10(cut),
            ;
            lemma_div_multiples_vanish(m * pow10(digits), pow10(cut));
        }
    }
    assert(t / pow10(digits) == m) by {
        assert(m * pow10(digits) == pow10(digits) * m) by (nonlinear_arith);
        lemma_div_multiples_vanish(m, pow10(digits));
    }
    lemma_low_digits_of_multiple(m, digits, digits);
}

/// The one-character string of a decimal digit.
fn digit_str(d: u8) -> (s: &'static str)
    requires
        d < 10,
    ensures
        s@ == seq![digit_char(d as int)],
{
    proof {
        reveal_strlit("0");
        reveal_strlit("1");
        reveal_strlit("2");
        reveal_strlit("3");
        reveal_strlit("4");
        reveal_strlit("5");
        reveal_strlit("6");
        reveal_strlit("7");
        reveal_strlit("8");
        reveal_strlit("9");
    }
    let s = if d == 0 {
        "0"
    } else if d == 1 {
        "1"
    } else if d == 2 {
        "2"
    } else if d == 3 {
        "3"
    } else if d == 4 {
        "4"
    } else if d == 5 {
        "5"
    } else if d == 6 {
        "6"
    } else if d == 7 {
        "7"
    } else if d == 8 {
        "8"
    } else {
        "9"
    };
    assert(s@ =~= seq![digit_char(d as int)]);
    s
}

/// Whether `digits` holds the decimal digits of `n`, the lowest first.
pub open spec fn holds_digits_of(digits: Seq<u8>, n: int) -> bool {
    forall|j: int| 0 <= j < digits.len() ==> #[trigger] digits[j] == digit_at(n, j as nat)
}

/// Divides the non-negative `n` by ten and appends the remainder, its
/// lowest digit, to `digits`.
fn split_lowest_digit(n: &BigInt, digits: &mut Vec<u8>, Ghost(whole): Ghost<int>) -> (r: BigInt)
    requires
        0 <= whole,
        int_value(*n) == whole / pow10(old(digits)@.len()),
        holds_digits_of(old(digits)@, whole),
    ensures
        final(digits)@.len() == old(digits)@.len() + 1,
        holds_digits_of(final(digits)@, whole),
        int_value(r) == whole / pow10(final(digits)@.len()),
        int_value(r) == int_value(*n) / 10,
        0 <= int_value(r),
{
    let ten = from_i128(10);
    let (q, r) = div_rem_euclid(n, &ten);
    let ghost k = digits@.len();
    proof {
        lemma_next_power(whole, k);
        lemma_fundamental_div_mod_converse(int_value(*n), 10, int_value(q), int_value(r));
        vstd::arithmetic::div_mod::lemma_div_pos_is_pos(int_value(*n), 10);
    }
    let low = to_u64(&r).unwrap();
    digits.push(low as u8);
    assert(digits@[k as int] == digit_at(whole, k));
    q
}

/// Appends the digits held in `digits`, lowest first, to `out`, the highest
/// first.
fn append_digits(out: &mut String, digits: &Vec<u8>, Ghost(n): Ghost<int>)
    requires
        holds_digits_of(digits@, n),
        0 <= n,
    ensures
        final(out)@ == old(out)@ + low_digits(n, digits@.len()),
{
    let ghost width = digits@.len();
    let ghost all = low_digits(n, width);
    let mut j: usize = digits.len();
    proof {
        lemma_low_digits_len(n, width);
        assert(out@ =~= old(out)@ + all.subrange(0, 0));
    }
    while j > 0
        invariant
            j <= width,
            width == digits@.len(),
            all == low_digits(n, width),
            all.len() == width,
            0 <= n,
            holds_digits_of(digits@, n),
            out@ == old(out)@ + all.subrange(0, width - j),
        decreases j,
    {
        j = j - 1;
        let d = digits[j];
        proof {
            lemma_pow10_positive(j as nat);
            lemma_mod_bound(n / pow10(j as nat), 10);
            lemma_low_digits_index(n, width, width - 1 - j);
            assert(all.subrange(0, width - j) =~= all.subrange(0, width - 1 - j).push(
                digit_char(d as int),
            ));
        }
        out.append(digit_str(d));
        assert(out@ =~= old(out)@ + all.subrange(0, width - j));
    }
    assert(all.subrange(0, width as int) =~= all);
}

impl DecimalValue {
    /// The value in decimal notation with exactly `digits_after_point`
    /// digits after the point. A value with fewer digits is padded with
    /// zeros; of a value with more, the digits beyond the last one asked for
    /// are left off, so every digit written is a digit of the value. The
    /// point is always written, and a minus sign exactly where the value is
    /// negative.
    pub fn to_fixed_string(&self, digits_after_point: u32) -> (r: String)
        ensures
            r@ == self@.fixed_string(digits_after_point as nat),
    {
        let zero = from_i128(0);
        let ten = from_i128(10);
        let scale = self.precision_budget();
        let negative = less_than(self.unscaled_integer(), &zero);
        let m = if negative {
            difference(&zero, self.unscaled_integer())
        } else {
            copy_of(self.unscaled_integer())
        };
        let t = if digits_after_point >= scale {
            product(&m, &power_of_ten((digits_after_point - scale) as u64))
        } else {
            let unit = power_of_ten((scale - digits_after_point) as u64);
            proof {
                lemma_pow10_positive((scale - digits_after_point) as nat);
            }
            let (q, r) = div_rem_euclid(&m, &unit);
            proof {
                lemma_fundamental_div_mod_converse(
                    int_value(m),
                    int_value(unit),
                    int_value(q),
                    int_value(r),
                );
            }
            q
        };
        let ghost tv = int_value(t);
        assert(tv == self@.truncated_magnitude(digits_after_point as nat));
        assert(0 <= tv) by {
            lemma_pow10_positive((digits_after_point - scale) as nat);
            lemma_pow10_positive((scale - digits_after_point) as nat);
            if digits_after_point >= scale {
                assert(int_value(m) * pow10((digits_after_point - scale) as nat) >= 0)
                    by (nonlinear_arith)
                    requires
                        int_value(m) >= 0,
                        pow10((digits_after_point - scale) as nat) >= 1,
                ;
            } else {
                vstd::arithmetic::div_mod::lemma_div_pos_is_pos(
                    int_value(m),
                    pow10((scale - digits_after_point) as nat),
                );
            }
        }
        // the fraction, lowest digit first
        let mut fraction: Vec<u8> = Vec::new();
        let mut rest = t;
        let mut k: u32 = 0;
        assert(pow10(0) == 1);
        while k < digits_after_point
            invariant
                k <= digits_after_point,
                0 <= tv,
                fraction@.len() == k,
                holds_digits_of(fraction@, tv),
                int_value(rest) == tv / pow10(k as nat),
            decreases digits_after_point - k,
        {
            rest = split_lowest_digit(&rest, &mut fraction, Ghost(tv));
            k = k + 1;
        }
        // the integer part, lowest digit first
        let ghost whole = int_value(rest);
        proof {
            lemma_pow10_positive(digits_after_point as nat);
            vstd::arithmetic::div_mod::lemma_div_pos_is_pos(tv, pow10(digits_after_point as nat));
        }
        let mut integer: Vec<u8> = Vec::new();
        while !less_than(&rest, &ten)
            invariant
                0 <= whole,
                int_value(ten) == 10,
                holds_digits_of(integer@, whole),
                int_value(rest) == whole / pow10(integer@.len()),
                0 <= int_value(rest),
                digit_count(whole) == integer@.len() + digit_count(int_value(rest)),
            decreases int_value(rest),
        {
            rest = split_lowest_digit(&rest, &mut integer, Ghost(whole));
        }
        let _ = split_lowest_digit(&rest, &mut integer, Ghost(whole));
        assert(integer@.len() == digit_count(whole));
        let mut out = String::new();
        if negative {
            proof {
                reveal_strlit("-");
            }
            out.append("-");
            assert(out@ =~= seq!['-']);
        }
        append_digits(&mut out, &integer, Ghost(whole));
        proof {
            reveal_strlit(".");
        }
        let ghost head = out@;
        out.append(".");
        assert(out@ =~= head + seq!['.']);
        append_digits(&mut out, &fraction, Ghost(tv));
        out
    }
}

} // verus!
