use pi_series::compare::{compare_with_reference, Comparison, PI_1000};
use pi_series::decimal::DecimalValue;
use pi_series::plan::PrecisionPlan;
use pi_series::series::{evaluate_bbp, evaluate_leibniz};

fn bbp_digits(digits: u32) -> String {
    let plan = PrecisionPlan::new(digits).unwrap();
    evaluate_bbp(0, plan.bbp_term_count(), &plan).to_fixed_string(digits)
}

#[test]
fn bbp_gives_ten_digits_of_pi() {
    assert_eq!(bbp_digits(10), "3.1415926535");
    assert_eq!(bbp_digits(10), PI_1000[..12]);
}

#[test]
fn bbp_gives_a_hundred_digits_of_pi() {
    assert_eq!(bbp_digits(100), PI_1000[..102]);
}

#[test]
fn bbp_gives_a_thousand_digits_of_pi() {
    let text = bbp_digits(1000);
    assert_eq!(text.len(), 1002);
    assert_eq!(text[..1000], *PI_1000);
    assert_eq!(&text[1000..], "89");
    assert_eq!(compare_with_reference(&text), Comparison::LengthMismatch { position: 1000 });
    assert_eq!(compare_with_reference(&text[..1000]), Comparison::Identical { length: 1000 });
}

#[test]
fn bbp_first_terms_have_their_exact_values() {
    let plan = PrecisionPlan::new(0).unwrap();
    // 4 - 0.5 - 0.2 - 0.1666666667
    assert_eq!(evaluate_bbp(0, 1, &plan).to_fixed_string(10), "3.1333333333");
    // (0.4444444444 - 0.1666666667 - 0.0769230769 - 0.0714285714) / 16
    assert_eq!(evaluate_bbp(1, 2, &plan).to_fixed_string(10), "0.0080891331");
    assert_eq!(evaluate_bbp(0, 2, &plan).to_fixed_string(10), "3.1414224664");
}

#[test]
fn bbp_range_splits_into_parts() {
    let plan = PrecisionPlan::new(40).unwrap();
    let whole = evaluate_bbp(0, 30, &plan);
    let splits: Vec<u64> = vec![1, 7, 15, 29];
    for m in splits.iter() {
        let left = evaluate_bbp(0, *m, &plan);
        let right = evaluate_bbp(*m, 30, &plan);
        let joined = left.add(&right);
        assert_eq!(joined.unscaled_integer(), whole.unscaled_integer());
        assert_eq!(joined.to_fixed_string(50), whole.to_fixed_string(50));
    }
    let inner = evaluate_bbp(3, 12, &plan);
    let parts = evaluate_bbp(3, 5, &plan).add(&evaluate_bbp(5, 12, &plan));
    assert_eq!(inner.unscaled_integer(), parts.unscaled_integer());
}

#[test]
fn leibniz_range_splits_into_parts() {
    let plan = PrecisionPlan::new(12).unwrap();
    let whole = evaluate_leibniz(0, 50, &plan);
    let joined = evaluate_leibniz(0, 17, &plan).add(&evaluate_leibniz(17, 50, &plan));
    assert_eq!(joined.unscaled_integer(), whole.unscaled_integer());
}

#[test]
fn empty_range_is_zero() {
    let plan = PrecisionPlan::new(5).unwrap();
    let starts: Vec<u64> = vec![0, 1, 5, 1_000_000, u64::MAX];
    for k in starts.iter() {
        let b = evaluate_bbp(*k, *k, &plan);
        assert!(b.is_zero());
        assert_eq!(b.precision_budget(), 15);
        assert_eq!(b.to_fixed_string(5), "0.00000");
        let l = evaluate_leibniz(*k, *k, &plan);
        assert!(l.is_zero());
        assert_eq!(l.precision_budget(), 15);
        assert_eq!(l.to_fixed_string(5), "0.00000");
    }
    assert!(evaluate_bbp(9, 3, &plan).is_zero());
    assert!(evaluate_leibniz(9, 3, &plan).is_zero());
}

#[test]
fn bbp_skips_terms_that_round_to_zero() {
    let plan = PrecisionPlan::new(10).unwrap();
    let bounded = evaluate_bbp(0, 100, &plan);
    let unbounded = evaluate_bbp(0, u64::MAX, &plan);
    assert_eq!(bounded.unscaled_integer(), unbounded.unscaled_integer());
    assert_eq!(unbounded.to_fixed_string(10), "3.1415926535");
    // a range that starts beyond the last term that counts
    assert!(evaluate_bbp(1_000_000, u64::MAX, &plan).is_zero());
}

#[test]
fn leibniz_first_terms_have_their_exact_values() {
    let plan = PrecisionPlan::new(0).unwrap();
    assert_eq!(evaluate_leibniz(0, 1, &plan).to_fixed_string(10), "4.0000000000");
    // 4 * (1 - 0.3333333333 + 0.2)
    assert_eq!(evaluate_leibniz(0, 3, &plan).to_fixed_string(10), "3.4666666668");
    // an odd start begins with a negative term
    assert_eq!(evaluate_leibniz(1, 2, &plan).to_fixed_string(10), "-1.3333333332");
    assert_eq!(evaluate_leibniz(1, 3, &plan).to_fixed_string(10), "-0.5333333332");
    assert_eq!(evaluate_leibniz(2, 3, &plan).to_fixed_string(10), "0.8000000000");
}

#[test]
fn leibniz_comes_closer_with_more_terms() {
    let plan = PrecisionPlan::new(4).unwrap();
    let pi = std::f64::consts::PI;
    let counts: Vec<u64> = vec![10, 1000, 100_000];
    let mut last = f64::INFINITY;
    for n in counts.iter() {
        let text = evaluate_leibniz(0, *n, &plan).to_fixed_string(14);
        let value: f64 = text.parse().unwrap();
        let error = (value - pi).abs();
        assert!(error < last, "n = {}: {} is not below {}", n, error, last);
        // the tail of the series after n terms is about 1 / n
        assert!(error < 1.5 / (*n as f64));
        assert!(error > 0.5 / (*n as f64));
        last = error;
    }
    // ten terms do not give four digits
    assert_eq!(evaluate_leibniz(0, 10, &plan).to_fixed_string(4), "3.0418");
    assert_eq!(evaluate_leibniz(0, 100_000, &plan).to_fixed_string(4), "3.1415");
}

#[test]
fn series_values_carry_the_budget_of_the_plan() {
    let plan = PrecisionPlan::new(25).unwrap();
    let v: DecimalValue = evaluate_bbp(0, 5, &plan);
    assert_eq!(v.precision_budget(), 35);
    assert_eq!(evaluate_leibniz(0, 5, &plan).precision_budget(), 35);
}
