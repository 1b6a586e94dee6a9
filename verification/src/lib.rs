//! Exact cubic spline interpolation.
//!
//! The crate builds natural and clamped cubic splines over exact rational
//! arithmetic: a tridiagonal Thomas solver computes the second-derivative
//! unknowns, a builder assembles per-segment cubic coefficients, and the
//! resulting piecewise polynomial is evaluated (value, first and second
//! derivative) at arbitrary rational abscissas.
//!
//! One deviation from evaluation over real numbers follows from the exact
//! machine representation: a result whose reduced numerator or denominator
//! no longer fits below `2^63` is reported as an `Overflow` error rather
//! than computed wrongly, so construction and evaluation return `Result`
//! where real-number evaluation would be total.

pub mod error;
pub mod frac;
pub mod grid;
pub mod rat;
pub mod section;
pub mod spline;
pub mod tridiagonal;
