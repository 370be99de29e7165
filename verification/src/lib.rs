//! Arbitrary-precision fixed-point decimals and two classical series for pi,
//! with every rounding step stated and proved.

pub mod arith;
pub mod bigint;
pub mod compare;
pub mod decimal;
pub mod plan;
pub mod render;
mod rounding;
pub mod series;
