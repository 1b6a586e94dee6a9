//! Construction-time failures of the spline engine.

use vstd::prelude::*;

verus! {

/// Why a spline (or a tridiagonal solve) could not be built.
#[derive(Clone, Copy, Debug, PartialEq, Eq, Structural)]
pub enum SplineError {
    /// Fewer than three sample points were supplied.
    InsufficientPoints,
    /// The abscissas are not strictly increasing.
    NonMonotonicInput,
    /// A zero pivot arose during the tridiagonal elimination.
    NumericalInstability,
    /// An intermediate rational no longer fits in the machine words.
    Overflow,
}

} // verus!
