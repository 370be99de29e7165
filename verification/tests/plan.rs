use pi_series::decimal::DecimalError;
use pi_series::plan::{PrecisionPlan, GUARD_DIGITS};

#[test]
fn plan_adds_the_guard_margin() {
    let plan = PrecisionPlan::new(1000).unwrap();
    assert_eq!(plan.requested_digits, 1000);
    assert_eq!(plan.precision_budget, 1010);
    assert_eq!(GUARD_DIGITS, 10);
    let none = PrecisionPlan::new(0).unwrap();
    assert_eq!(none.precision_budget, 10);
}

#[test]
fn plan_refuses_a_budget_beyond_its_ceiling() {
    assert_eq!(PrecisionPlan::new(u32::MAX), Err(DecimalError::PrecisionExhausted));
    assert_eq!(PrecisionPlan::new(u32::MAX - 9), Err(DecimalError::PrecisionExhausted));
    let last = PrecisionPlan::new(u32::MAX - 10).unwrap();
    assert_eq!(last.precision_budget, u32::MAX);
}

#[test]
fn bbp_term_count_is_linear_in_the_digits() {
    assert_eq!(PrecisionPlan::new(0).unwrap().bbp_term_count(), 10);
    assert_eq!(PrecisionPlan::new(1).unwrap().bbp_term_count(), 11);
    assert_eq!(PrecisionPlan::new(10).unwrap().bbp_term_count(), 19);
    assert_eq!(PrecisionPlan::new(100).unwrap().bbp_term_count(), 94);
    assert_eq!(PrecisionPlan::new(1000).unwrap().bbp_term_count(), 841);
    assert_eq!(PrecisionPlan::new(1204).unwrap().bbp_term_count(), 1010);
    assert_eq!(PrecisionPlan::new(u32::MAX - 10).unwrap().bbp_term_count(), 3_567_248_586);
}

#[test]
fn leibniz_term_count_is_exponential_in_the_digits() {
    assert_eq!(PrecisionPlan::new(0).unwrap().leibniz_term_count(), Some(1));
    assert_eq!(PrecisionPlan::new(4).unwrap().leibniz_term_count(), Some(10_000));
    assert_eq!(
        PrecisionPlan::new(19).unwrap().leibniz_term_count(),
        Some(10_000_000_000_000_000_000)
    );
    assert_eq!(PrecisionPlan::new(20).unwrap().leibniz_term_count(), None);
    assert_eq!(PrecisionPlan::new(1000).unwrap().leibniz_term_count(), None);
}
