//! A matrix-multiplication engine built around independent per-cell tasks.
//!
//! Each output cell of a matrix product is an independent dot product of one
//! row of the left operand and one column of the right operand.  The engine
//! enumerates the cells, routes each one to a worker lane by its linear
//! index, computes every task with [`worker_step`](matrix::worker_step), and
//! assembles the replies — in any order, since each reply carries its own
//! linear index — into the output matrix.

use vstd::prelude::*;

pub mod matrix;
pub mod text;
pub mod vector;

pub use matrix::{fan_in, fan_out, multiply, route, run_lane, worker_step};
pub use matrix::{Matrix, MsgInput, MsgOutput, NUM_THREADS};
pub use vector::{dot_product, Vector};

verus! {

/// The ways a matrix or vector operation can be rejected.
#[derive(Clone, Copy, Debug, PartialEq, Eq, Structural)]
pub enum MatrixError {
    /// The left operand's column count differs from the right operand's row
    /// count, so the matrix product is undefined.
    DimensionMismatch,
    /// The two operands of a dot product differ in length.
    LengthMismatch,
}

} // verus!
