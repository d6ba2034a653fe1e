//! Norms over vectors and matrices, and the metric each norm induces.
//!
//! A caller picks a norm value (`Euclidean`, or a parametrized `Lp`) and
//! either computes a scalar magnitude directly through the `VectorNorm` /
//! `MatrixNorm` capability, or obtains the induced distance between two
//! objects of the same shape through `VectorMetric` / `MatrixMetric`,
//! which is derived once, generically, from any norm as
//! `metric(a, b) = norm(a - b)`.
//!
//! Elements are exact `i64` scalars; a norm reports its result as an exact
//! `Magnitude` (a radicand together with the degree of the root still to be
//! taken), so every computation here is exact and fully specified.

pub mod arith;
pub mod error;
pub mod matrix;
pub mod norm;
pub mod sums;
pub mod utils;
pub mod vector;
