use bigdecimal::num_bigint::BigInt;
use pi_series::decimal::{DecimalError, DecimalValue};

fn whole(n: i128, scale: u32) -> DecimalValue {
    DecimalValue::from_integer(n, scale)
}

fn ratio(n: i128, d: i128, scale: u32) -> DecimalValue {
    whole(n, scale).divide(&whole(d, scale)).unwrap()
}

#[test]
fn from_integer_is_exact() {
    let v = whole(42, 5);
    assert_eq!(v.to_fixed_string(5), "42.00000");
    assert_eq!(*v.unscaled_integer(), BigInt::from(4_200_000));
    assert_eq!(v.precision_budget(), 5);
    let big = whole(i128::MAX, 2);
    assert_eq!(big.to_fixed_string(2), format!("{}.00", i128::MAX));
    let small = whole(i128::MIN, 0);
    assert_eq!(small.to_fixed_string(0), format!("{}.", i128::MIN));
}

#[test]
fn integers_read_back_with_zeros() {
    let numbers: Vec<i128> = vec![0, 1, -1, 7, -15, 10, 100, 123_456_789, -9_007_199_254_740_993];
    let scales: Vec<u32> = vec![0, 3, 40];
    let widths: Vec<u32> = vec![0, 1, 5, 30, 60];
    for n in numbers.iter() {
        for s in scales.iter() {
            for d in widths.iter() {
                let text = whole(*n, *s).to_fixed_string(*d);
                let zeros = "0".repeat(*d as usize);
                assert_eq!(text, format!("{}.{}", n, zeros));
            }
        }
    }
}

#[test]
fn sum_is_exact_at_the_wider_scale() {
    let a = ratio(3, 2, 1);
    let b = ratio(1, 4, 2);
    let r = a.add(&b);
    assert_eq!(r.precision_budget(), 2);
    assert_eq!(r.to_fixed_string(2), "1.75");
    let r2 = b.add(&a);
    assert_eq!(r2.to_fixed_string(2), "1.75");
    assert_eq!(*r.unscaled_integer(), BigInt::from(175));
}

#[test]
fn difference_is_exact_at_the_wider_scale() {
    let a = ratio(3, 2, 1);
    let b = ratio(1, 4, 2);
    assert_eq!(a.subtract(&b).to_fixed_string(2), "1.25");
    assert_eq!(b.subtract(&a).to_fixed_string(2), "-1.25");
    assert_eq!(a.subtract(&a).to_fixed_string(1), "0.0");
    assert!(a.subtract(&a).is_zero());
}

#[test]
fn product_with_an_integer_is_exact() {
    let a = ratio(1, 4, 2);
    assert_eq!(a.multiply_small(-3).to_fixed_string(2), "-0.75");
    assert_eq!(a.multiply_small(8).to_fixed_string(2), "2.00");
    assert_eq!(a.multiply_small(0).to_fixed_string(2), "0.00");
    assert_eq!(a.multiply_small(i64::MAX).to_fixed_string(2), "2305843009213693951.75");
}

#[test]
fn quotient_is_rounded_to_nearest() {
    assert_eq!(ratio(1, 3, 5).to_fixed_string(5), "0.33333");
    assert_eq!(ratio(2, 3, 5).to_fixed_string(5), "0.66667");
    assert_eq!(ratio(-2, 3, 5).to_fixed_string(5), "-0.66667");
    assert_eq!(ratio(2, -3, 5).to_fixed_string(5), "-0.66667");
    assert_eq!(ratio(-2, -3, 5).to_fixed_string(5), "0.66667");
    assert_eq!(ratio(1, 7, 12).to_fixed_string(12), "0.142857142857");
    assert_eq!(ratio(22, 7, 3).to_fixed_string(3), "3.143");
}

#[test]
fn quotient_tie_goes_away_from_zero() {
    assert_eq!(ratio(1, 8, 2).to_fixed_string(2), "0.13");
    assert_eq!(ratio(-1, 8, 2).to_fixed_string(2), "-0.13");
    assert_eq!(ratio(1, -8, 2).to_fixed_string(2), "-0.13");
    assert_eq!(ratio(1, 8, 3).to_fixed_string(3), "0.125");
    assert_eq!(ratio(5, 2, 0).to_fixed_string(0), "3.");
    assert_eq!(ratio(7, -2, 0).to_fixed_string(0), "-4.");
    assert_eq!(ratio(3, 8, 2).to_fixed_string(2), "0.38");
}

#[test]
fn quotient_of_mixed_scales() {
    let a = whole(1, 2);
    let b = whole(3, 5);
    let q = a.divide(&b).unwrap();
    assert_eq!(q.precision_budget(), 5);
    assert_eq!(q.to_fixed_string(5), "0.33333");
    let q2 = b.divide(&whole(4, 1)).unwrap();
    assert_eq!(q2.precision_budget(), 5);
    assert_eq!(q2.to_fixed_string(5), "0.75000");
    // a divisor that is itself a fraction
    let third = ratio(1, 3, 4);
    let r = whole(1, 4).divide(&third).unwrap();
    assert_eq!(r.to_fixed_string(4), "3.0003");
}

#[test]
fn division_by_zero_is_an_error() {
    let numbers: Vec<i128> = vec![0, 1, -5, 1_000_000_007];
    for x in numbers.iter() {
        let r = whole(*x, 6).divide(&whole(0, 6));
        assert!(matches!(r, Err(DecimalError::DivisionByZero)));
        let r2 = whole(*x, 6).divide(&whole(0, 0));
        assert!(matches!(r2, Err(DecimalError::DivisionByZero)));
    }
    let zero = ratio(1, 3, 2).subtract(&ratio(1, 3, 2));
    assert!(matches!(whole(0, 2).divide(&zero), Err(DecimalError::DivisionByZero)));
}

#[test]
fn quotient_is_within_half_a_unit() {
    // |q * d - n * 10^scale| * 2 <= |d| for a range of small operands
    let scale: u32 = 3;
    let unit = BigInt::from(1000);
    for n in -20i128..=20 {
        for d in -9i128..=9 {
            if d == 0 {
                continue;
            }
            let q = ratio(n, d, scale);
            let lhs = q.unscaled_integer() * BigInt::from(d) - BigInt::from(n) * &unit;
            let twice = if lhs < BigInt::from(0) { -lhs * 2 } else { lhs * 2 };
            assert!(twice <= BigInt::from(d.abs()), "n = {}, d = {}", n, d);
        }
    }
}

#[test]
fn sixteenth_powers_divide_exactly_where_they_fit() {
    assert_eq!(whole(1, 4).scale_by_power_of_sixteen(1).to_fixed_string(4), "0.0625");
    assert_eq!(whole(1, 8).scale_by_power_of_sixteen(2).to_fixed_string(8), "0.00390625");
    assert_eq!(whole(1, 10).scale_by_power_of_sixteen(2).to_fixed_string(10), "0.0039062500");
    assert_eq!(whole(-48, 4).scale_by_power_of_sixteen(1).to_fixed_string(4), "-3.0000");
    assert_eq!(whole(7, 3).scale_by_power_of_sixteen(0).to_fixed_string(3), "7.000");
}

#[test]
fn sixteenth_powers_round_once() {
    // 62.5 units: a tie, away from zero
    assert_eq!(whole(1, 3).scale_by_power_of_sixteen(1).to_fixed_string(3), "0.063");
    assert_eq!(whole(-1, 3).scale_by_power_of_sixteen(1).to_fixed_string(3), "-0.063");
    // 127 / 256 is below one half: rounding after each division by sixteen
    // would give one unit, rounding once gives none
    let v = ratio(127, 1000, 3);
    assert_eq!(v.to_fixed_string(3), "0.127");
    assert_eq!(v.scale_by_power_of_sixteen(2).to_fixed_string(3), "0.000");
    // 128 / 256 is one half exactly
    let w = ratio(128, 1000, 3);
    assert_eq!(w.scale_by_power_of_sixteen(2).to_fixed_string(3), "0.001");
    assert_eq!(w.multiply_small(-1).scale_by_power_of_sixteen(2).to_fixed_string(3), "-0.001");
}

#[test]
fn large_power_of_sixteen_is_rounded_not_wrapped() {
    let exponent: u32 = 10_000;
    let budget: u32 = 12_050;
    let r = whole(1, budget).scale_by_power_of_sixteen(exponent as u64);
    let power = BigInt::from(16).pow(exponent);
    let unit = BigInt::from(10).pow(budget);
    let expected = (&unit * 2 + &power) / (&power * 2);
    assert_eq!(*r.unscaled_integer(), expected);
    assert_eq!(r.sign(), 1);
    assert!(!r.is_zero());
    let text = r.to_fixed_string(budget);
    assert!(text.starts_with("0.000000000000"));
    assert_eq!(text.len(), budget as usize + 2);
    // 16^-10000 is about 6.3e-12042
    let first = text.find(|c: char| c != '0' && c != '.').unwrap();
    assert_eq!(first, 12_042 + 1);
}

#[test]
fn large_power_of_sixteen_at_a_small_budget_is_zero() {
    let r = whole(1, 20).scale_by_power_of_sixteen(10_000);
    assert!(r.is_zero());
    assert_eq!(r.to_fixed_string(20), "0.00000000000000000000");
    let far = whole(-123_456, 20).scale_by_power_of_sixteen(u64::MAX);
    assert!(far.is_zero());
    assert_eq!(far.precision_budget(), 20);
}

#[test]
fn fixed_string_pads_and_cuts() {
    let v = ratio(2, 3, 5);
    assert_eq!(v.to_fixed_string(5), "0.66667");
    assert_eq!(v.to_fixed_string(8), "0.66667000");
    assert_eq!(v.to_fixed_string(2), "0.66");
    assert_eq!(v.to_fixed_string(0), "0.");
    let w = ratio(-1999, 1000, 3);
    assert_eq!(w.to_fixed_string(3), "-1.999");
    assert_eq!(w.to_fixed_string(2), "-1.99");
    assert_eq!(w.to_fixed_string(0), "-1.");
    assert_eq!(w.to_fixed_string(6), "-1.999000");
    let tiny = ratio(-4, 1000, 3);
    assert_eq!(tiny.to_fixed_string(2), "-0.00");
    let long = ratio(1234567890123, 1000, 3);
    assert_eq!(long.to_fixed_string(1), "1234567890.1");
}

#[test]
fn sign_and_zero() {
    assert_eq!(whole(5, 2).sign(), 1);
    assert_eq!(whole(-5, 2).sign(), -1);
    assert_eq!(whole(0, 2).sign(), 0);
    assert!(whole(0, 9).is_zero());
    assert!(!whole(1, 0).is_zero());
    assert!(ratio(1, 1000, 2).is_zero());
}

#[test]
fn clone_keeps_the_value() {
    let v = ratio(22, 7, 30);
    let c = v.clone();
    assert_eq!(c.unscaled_integer(), v.unscaled_integer());
    assert_eq!(c.precision_budget(), v.precision_budget());
    assert_eq!(c.to_fixed_string(30), v.to_fixed_string(30));
}

#[test]
fn exactness_to_a_digit() {
    let v = ratio(1, 8, 5);
    assert_eq!(v.to_fixed_string(5), "0.12500");
    assert!(v.is_exact_to(3));
    assert!(v.is_exact_to(4));
    assert!(v.is_exact_to(5));
    assert!(v.is_exact_to(9));
    assert!(!v.is_exact_to(2));
    assert!(!v.is_exact_to(0));
    assert!(whole(-7, 4).is_exact_to(0));
    assert!(!ratio(-1, 3, 4).is_exact_to(3));
    assert!(whole(0, 4).is_exact_to(0));
}
