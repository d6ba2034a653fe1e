//! The ways a norm or metric computation can fail.

use vstd::prelude::*;

verus! {

/// Error raised by norm and metric computations.
///
/// The two mathematical error kinds are kept distinct: a norm parameter
/// outside its allowed range, and operands whose shapes do not agree.
/// `Overflow` reports an exact intermediate value that does not fit the
/// machine integers used to carry it.
#[derive(Clone, Copy, Debug, PartialEq, Eq, Structural)]
pub enum NormError {
    /// A norm was invoked with a parameter outside its allowed range
    /// (an `Lp` exponent below one).
    InvalidParameter,
    /// Two operands of incompatible shape (vector length, or matrix
    /// dimensions) were combined.
    ShapeMismatch,
    /// An exact intermediate value exceeds the machine integer range.
    Overflow,
}

} // verus!
