//! Exact signed fractions over unsigned integers, kept in lowest terms.
//!
//! Arithmetic that could exceed the range of `u64` is either ruled out by a
//! precondition (`add`, `sub`, `mul`, `div`) or reported as `None` (the
//! `checked_` forms); it never wraps.

pub mod arith;
pub mod fraction;
pub mod laws;
pub mod text;

pub use fraction::{DecimalClass, Fraction};
