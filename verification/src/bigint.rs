//! The boundary to the big-integer arithmetic of `num-bigint`.
//!
//! Nothing in this file is proved: each function hands its arguments to one
//! operation of `BigInt`, and its contract records what that operation is
//! documented to compute. The rest of the crate is verified against these
//! contracts.

use bigdecimal::num_bigint::BigInt;
use bigdecimal::num_traits::Euclid;
use bigdecimal::num_traits::ToPrimitive;
use vstd::prelude::*;

verus! {

#[verifier::external_type_specification]
#[verifier::external_body]
pub struct ExBigInt(BigInt);

/// The mathematical integer that a `BigInt` holds.
pub uninterp spec fn int_value(x: BigInt) -> int;

/// `BigInt::from` on an `i128`: the conversion is exact.
#[verifier::external_body]
pub(crate) fn from_i128(n: i128) -> (r: BigInt)
    ensures
        int_value(r) == n,
{
    BigInt::from(n)
}

/// `Clone::clone` on a `BigInt`: the copy holds the same integer.
#[verifier::external_body]
pub(crate) fn copy_of(a: &BigInt) -> (r: BigInt)
    ensures
        int_value(r) == int_value(*a),
{
    a.clone()
}

/// `&BigInt + &BigInt`: the exact sum, of any size.
#[verifier::external_body]
pub(crate) fn sum(a: &BigInt, b: &BigInt) -> (r: BigInt)
    ensures
        int_value(r) == int_value(*a) + int_value(*b),
{
    a + b
}

/// `&BigInt - &BigInt`: the exact difference, of any size.
#[verifier::external_body]
pub(crate) fn difference(a: &BigInt, b: &BigInt) -> (r: BigInt)
    ensures
        int_value(r) == int_value(*a) - int_value(*b),
{
    a - b
}

/// `&BigInt * &BigInt`: the exact product, of any size.
#[verifier::external_body]
pub(crate) fn product(a: &BigInt, b: &BigInt) -> (r: BigInt)
    ensures
        int_value(r) == int_value(*a) * int_value(*b),
{
    a * b
}

/// `Euclid::div_rem_euclid` on `BigInt`: the quotient and the least
/// non-negative remainder. The outside function panics on a zero divisor,
/// which the precondition leaves out.
#[verifier::external_body]
pub(crate) fn div_rem_euclid(a: &BigInt, b: &BigInt) -> (r: (BigInt, BigInt))
    requires
        int_value(*b) != 0,
    ensures
        int_value(r.0) * int_value(*b) + int_value(r.1) == int_value(*a),
        0 <= int_value(r.1),
        int_value(r.1) < int_value(*b) || int_value(r.1) < -int_value(*b),
{
    a.div_rem_euclid(b)
}

/// `PartialOrd::lt` on `BigInt`: the order of the integers.
#[verifier::external_body]
pub(crate) fn less_than(a: &BigInt, b: &BigInt) -> (r: bool)
    ensures
        r == (int_value(*a) < int_value(*b)),
{
    a < b
}

/// `ToPrimitive::to_u64` on `BigInt`: the integer itself where it lies in the
/// range of `u64`, and `None` where it does not.
#[verifier::external_body]
pub(crate) fn to_u64(a: &BigInt) -> (r: Option<u64>)
    ensures
        match r {
            Some(v) => v == int_value(*a),
            None => int_value(*a) < 0 || int_value(*a) > u64::MAX,
        },
{
    a.to_u64()
}

} // verus!
