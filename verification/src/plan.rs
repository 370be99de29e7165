//! `PrecisionPlan`: what a requested count of correct digits asks of an
//! evaluation.
//!
//! The two series differ in kind. The Bailey-Borwein-Plouffe series gains a
//! factor of sixteen per term, so the terms needed grow linearly with the
//! digits asked for. The Leibniz series has a tail of about `1 / (2N + 1)`
//! after `N` terms, so the terms needed grow as `10^digits`: every further
//! digit costs ten times the work, and beyond nineteen digits the count does
//! not fit the index type at all.

use crate::arith::{lemma_pow10_positive, pow10};
use crate::decimal::DecimalError;
use vstd::prelude::*;

verus! {

/// Digits kept beyond those asked for, to absorb the rounding of the
/// operations of one evaluation. The same margin is added to the term count
/// of the geometric series.
pub const GUARD_DIGITS: u32 = 10;

/// The working precision derived from a requested count of digits.
#[derive(Debug, Clone, Copy, PartialEq, Eq, Structural)]
pub struct PrecisionPlan {
    /// The digits after the decimal point that the caller wants correct.
    pub requested_digits: u32,
    /// The digits after the decimal point that every operation keeps.
    pub precision_budget: u32,
}

/// Terms of the Bailey-Borwein-Plouffe series for `digits` digits: the
/// digits divided by 1.204, rounded up, and the guard margin.
pub open spec fn bbp_terms_for(digits: nat) -> nat {
    ((digits * 1000 + 1203) / 1204 + GUARD_DIGITS as int) as nat
}

pub proof fn lemma_pow10_monotone(a: nat, b: nat)
    requires
        a <= b,
    ensures
        pow10(a) <= pow10(b),
    decreases b,
{
    lemma_pow10_positive(a);
    if a < b {
        lemma_pow10_monotone(a, (b - 1) as nat);
    }
}

impl PrecisionPlan {
    /// Whether the budget is the requested digits and the guard margin.
    pub open spec fn well_formed(&self) -> bool {
        self.precision_budget == self.requested_digits + GUARD_DIGITS
    }

    /// The plan for `requested_digits` correct digits. The budget is a
    /// 32-bit count; a request whose budget would pass that ceiling is
    /// refused rather than wrapped.
    pub fn new(requested_digits: u32) -> (r: Result<PrecisionPlan, DecimalError>)
        ensures
            requested_digits + GUARD_DIGITS <= u32::MAX ==> r == Ok::<PrecisionPlan, DecimalError>(
                (PrecisionPlan {
                    requested_digits,
                    precision_budget: (requested_digits + GUARD_DIGITS) as u32,
                }),
            ),
            requested_digits + GUARD_DIGITS > u32::MAX ==> r == Err::<PrecisionPlan, DecimalError>(
                DecimalError::PrecisionExhausted,
            ),
    {
        if requested_digits > u32::MAX - GUARD_DIGITS {
            Err(DecimalError::PrecisionExhausted)
        } else {
            Ok(PrecisionPlan { requested_digits, precision_budget: requested_digits + GUARD_DIGITS })
        }
    }

    /// The count of terms of the Bailey-Borwein-Plouffe series after which
    /// the rest of the series is below one unit of the last requested digit.
    pub fn bbp_term_count(&self) -> (r: u64)
        ensures
            r == bbp_terms_for(self.requested_digits as nat),
    {
        let scaled: u64 = self.requested_digits as u64 * 1000 + 1203;
        scaled / 1204 + GUARD_DIGITS as u64
    }

    /// The count of terms of the Leibniz series after which the rest of the
    /// series is below one unit of the last requested digit: `10^digits`,
    /// or `None` where that count is beyond the range of a term index.
    pub fn leibniz_term_count(&self) -> (r: Option<u64>)
        ensures
            match r {
                Some(n) => n == pow10(self.requested_digits as nat),
                None => pow10(self.requested_digits as nat) > u64::MAX,
            },
    {
        let mut n: u64 = 1;
        let mut i: u32 = 0;
        while i < self.requested_digits
            invariant
                i <= self.requested_digits,
                n == pow10(i as nat),
            decreases self.requested_digits - i,
        {
            match n.checked_mul(10) {
                Some(next) => {
                    n = next;
                },
                None => {
                    proof {
                        lemma_pow10_monotone((i + 1) as nat, self.requested_digits as nat);
                    }
                    return None;
                },
            }
            i = i + 1;
        }
        Some(n)
    }
}

} // verus!
