//! Deterministic fixed-point arithmetic on scaled 32-bit integers, with
//! verified scale-generic arithmetic and approximations of sine and reciprocal.

pub mod fixed;
pub mod laws;
pub mod ops;
pub mod reciprocal;
pub mod scale;
pub mod sine;
pub mod wrap;

pub use fixed::{Fixed, FixedError};
pub use scale::{fixed_add, fixed_div, fixed_mul, fixed_sub, GivenScale, Scaled};
