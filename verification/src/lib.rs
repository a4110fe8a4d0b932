//! Row and column minima for totally monotone matrices.
//!
//! A matrix is *totally monotone* when, for every pair of rows `i < i'`
//! and columns `j < j'`, the implication
//! `M[i, j] > M[i', j]  ==>  M[i, j'] > M[i', j']` holds. On such
//! matrices the minima of all lanes can be found in time proportional
//! to the perimeter of the matrix instead of its area, which turns
//! many quadratic dynamic programs into linear ones.
//!
//! The crate offers four strategies: a brute-force scan, a recursive
//! divide-and-conquer search, the linear-time SMAWK reduction, and an
//! online engine that resolves the column minima strictly above the
//! diagonal one column at a time. A Monge-property verifier with
//! overflow-safe arithmetic decides whether a matrix is eligible for
//! the fast strategies, and a generator builds random Monge matrices
//! for stress testing.

use vstd::prelude::*;

pub mod matrix;
pub mod brute;
pub mod smawk;
pub mod recursive;
pub mod monge;
pub mod online;
pub mod laws;

pub use brute::{brute_force_column_minima, brute_force_row_minima};
pub use matrix::IntMatrix;
pub use monge::{MongePrim, is_monge, random_monge_matrix};
pub use online::online_column_minima;
pub use recursive::{recursive_column_minima, recursive_row_minima};
pub use smawk::{smawk_column_minima, smawk_row_minima};

verus! {

/// Error returned when a minima request is made on a matrix whose
/// orthogonal dimension is zero: no lane has a minimum to report.
#[derive(Clone, Copy, Debug, PartialEq, Eq, Structural)]
pub enum MinimaError {
    EmptyInput,
}

} // verus!
