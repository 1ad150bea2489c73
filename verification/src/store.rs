//! What the two coefficient stores have in common.
use vstd::prelude::*;

verus! {

/// Largest number of equations, and of unknowns, that a system may have.
pub const MAX_N: usize = 4;

/// Why a store refused a coefficient.
#[derive(Clone, Copy, Debug, PartialEq, Eq, Structural)]
pub enum StoreError {
    /// The row or the column is not below `MAX_N`.
    OutOfBounds,
    /// The coordinate store already holds a coefficient at that position.
    Duplicate,
    /// The coordinate store is full.
    CapacityExceeded,
}

/// Whether `m` has `n` rows of `n` coefficients each.
pub open spec fn is_square(m: Seq<Seq<int>>, n: int) -> bool {
    &&& m.len() == n
    &&& forall|i: int| 0 <= i < n ==> (#[trigger] m[i]).len() == n
}

} // verus!
