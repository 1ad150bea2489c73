//! The dominance test that is made before a solve.
//!
//! A row passes when the plain sum of its off-diagonal coefficients is
//! strictly less than its diagonal coefficient. No absolute values are
//! taken: a row of negative off-diagonal coefficients passes however large
//! they are, and a row with a negative diagonal coefficient passes only if
//! its off-diagonal sum is more negative still. The test is a hint, not a
//! guarantee of convergence.
use vstd::prelude::*;
use crate::fixed::{raw_values, Fixed};
use crate::model::{lemma_sum_agrees, products, sum_except};
use crate::solver::Coefficients;
use crate::store::MAX_N;

verus! {

/// Whether the off-diagonal coefficients of row `i` sum to less than its
/// diagonal coefficient.
pub open spec fn row_dominant(row: Seq<int>, i: int) -> bool {
    sum_except(row, i, row.len() as int) < row[i]
}

/// Whether every row of the grid passes the test.
pub open spec fn diagonally_dominant(m: Seq<Seq<int>>) -> bool {
    forall|i: int| 0 <= i < m.len() ==> row_dominant(#[trigger] m[i], i)
}

/// Applies the test to the system of dimension `n` that `c` holds.
pub(crate) fn is_dominant(c: &Coefficients, n: usize) -> (r: bool)
    requires
        n <= MAX_N,
    ensures
        r == diagonally_dominant(c.grid(n as int)),
{
    let ghost m = c.grid(n as int);
    // With every unknown at one raw unit, a row's products are its
    // coefficients themselves.
    let mut units: Vec<Fixed> = Vec::new();
    let mut k: usize = 0;
    while k < n
        invariant
            k <= n,
            units@.len() == k,
            forall|j: int| 0 <= j < k ==> (#[trigger] units@[j])@ == 1,
        decreases n - k,
    {
        units.push(Fixed::from_bounded(1));
        k += 1;
    }
    let mut i: usize = 0;
    while i < n
        invariant
            n <= MAX_N,
            i <= n,
            units@.len() == n,
            forall|j: int| 0 <= j < n ==> (#[trigger] units@[j])@ == 1,
            m == c.grid(n as int),
            forall|j: int| 0 <= j < i ==> row_dominant(#[trigger] m[j], j),
        decreases n - i,
    {
        let terms = c.row_terms(&units, n, i);
        proof {
            let row = m[i as int];
            let weighted = products(row, raw_values(units@, n as int));
            lemma_sum_agrees(weighted, row, i as int, n as int);
        }
        if !(terms.0 < terms.1.raw() as i128) {
            return false;
        }
        i += 1;
    }
    true
}

} // verus!
