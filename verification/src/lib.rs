//! Gauss-Seidel iteration for linear systems `A x = b` of at most four
//! equations.
//!
//! The coefficients live in a dense store, a full grid, or in a coordinate
//! store, a short list of entries with their positions; a system holds one
//! of each, and every operation exists for both. Before a solve, a dominance
//! test tells whether the iteration can be expected to converge. The solve
//! itself sweeps over the rows, replacing each unknown in place, until the
//! residual error is within the tolerance or the iteration ceiling is
//! passed, and reports which of the two happened, or that the matrix has a
//! zero on its diagonal, or that an unknown ran out of range.
//!
//! Numbers are decimal fixed-point values with nine decimal places, so that
//! all sums and products are exact and the behaviour of a solve is the same
//! everywhere. Systems can be filled number by number or read from lines of
//! text.
pub mod decimal;
pub mod dense;
pub mod dominance;
pub mod fixed;
pub mod laws;
pub mod model;
pub mod solver;
pub mod sparse;
pub mod store;
pub mod system;

pub use crate::fixed::Fixed;
pub use crate::model::SolveStatus;
pub use crate::solver::SolveReport;
pub use crate::store::{StoreError, MAX_N};
pub use crate::system::LS;
