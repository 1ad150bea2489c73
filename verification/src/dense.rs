//! The dense store: every coefficient of a `MAX_N` by `MAX_N` grid.
use vstd::prelude::*;
use crate::fixed::{in_range, Fixed};
use crate::store::{StoreError, MAX_N};

verus! {

/// A full grid of coefficients, all zero until set.
///
/// A system of dimension `n` uses the rows and columns below `n`; what lies
/// outside them is kept but never read by the dominance test or the solver.
pub struct DenseMatrix {
    cells: Vec<Fixed>,
}

impl DenseMatrix {
    #[verifier::type_invariant]
    closed spec fn full(self) -> bool {
        self.cells.len() == MAX_N * MAX_N
    }

    /// The raw count of the coefficient at `(row, col)`.
    pub closed spec fn entry(self, row: int, col: int) -> int {
        self.cells[row * MAX_N + col]@
    }

    /// The coefficients that a system of dimension `n` uses, row by row.
    pub open spec fn grid(self, n: int) -> Seq<Seq<int>> {
        Seq::new(n as nat, |i: int| Seq::new(n as nat, |j: int| self.entry(i, j)))
    }

    /// A store of zeros.
    pub fn new() -> (r: DenseMatrix)
        ensures
            forall|i: int, j: int| 0 <= i < MAX_N && 0 <= j < MAX_N ==> r.entry(i, j) == 0,
    {
        let mut cells: Vec<Fixed> = Vec::new();
        let mut k: usize = 0;
        while k < MAX_N * MAX_N
            invariant
                k <= MAX_N * MAX_N,
                cells@.len() == k,
                forall|i: int| 0 <= i < k ==> (#[trigger] cells@[i])@ == 0,
            decreases MAX_N * MAX_N - k,
        {
            cells.push(Fixed::zero());
            k += 1;
        }
        DenseMatrix { cells }
    }

    /// Overwrites the coefficient at `(row, col)`.
    ///
    /// A position outside the grid is refused and leaves the store as it was.
    pub fn set_element(&mut self, row: usize, col: usize, value: Fixed) -> (r: Result<
        (),
        StoreError,
    >)
        ensures
            match r {
                Ok(_) => {
                    &&& row < MAX_N && col < MAX_N
                    &&& final(self).entry(row as int, col as int) == value@
                    &&& forall|i: int, j: int|
                        0 <= i < MAX_N && 0 <= j < MAX_N && !(i == row && j == col)
                            ==> final(self).entry(i, j) == old(self).entry(i, j)
                },
                Err(e) => {
                    &&& e == StoreError::OutOfBounds
                    &&& row >= MAX_N || col >= MAX_N
                    &&& *final(self) == *old(self)
                },
            },
        no_unwind
    {
        proof {
            use_type_invariant(&*self);
        }
        if row >= MAX_N || col >= MAX_N {
            return Err(StoreError::OutOfBounds);
        }
        self.cells[row * MAX_N + col] = value;
        Ok(())
    }

    /// Overwrites the first `count` coefficients of a row with the first
    /// `count` of `values`.
    pub(crate) fn set_row_start(&mut self, row: usize, values: &Vec<Fixed>, count: usize)
        requires
            row < MAX_N,
            count <= MAX_N,
            count <= values@.len(),
        ensures
            forall|i: int, j: int|
                0 <= i < MAX_N && 0 <= j < MAX_N ==> final(self).entry(i, j) == (if i == row && j
                    < count {
                    values@[j]@
                } else {
                    old(self).entry(i, j)
                }),
        no_unwind
    {
        let mut j: usize = 0;
        while j < count
            invariant
                row < MAX_N,
                j <= count <= MAX_N,
                count <= values@.len(),
                forall|i: int, k: int|
                    0 <= i < MAX_N && 0 <= k < MAX_N ==> self.entry(i, k) == (if i == row && k < j {
                        values@[k]@
                    } else {
                        old(self).entry(i, k)
                    }),
            decreases count - j,
        {
            let _ = self.set_element(row, j, values[j]);
            j += 1;
        }
    }

    /// The coefficient at `(row, col)`, if the position lies in the grid.
    pub fn get_element(&self, row: usize, col: usize) -> (r: Option<Fixed>)
        ensures
            match r {
                Some(v) => row < MAX_N && col < MAX_N && v@ == self.entry(row as int, col as int),
                None => row >= MAX_N || col >= MAX_N,
            },
    {
        if row >= MAX_N || col >= MAX_N {
            None
        } else {
            Some(self.at(row, col))
        }
    }

    /// The coefficient at a position that lies in the grid.
    pub(crate) fn at(&self, row: usize, col: usize) -> (r: Fixed)
        requires
            row < MAX_N,
            col < MAX_N,
        ensures
            r@ == self.entry(row as int, col as int),
            in_range(r@),
    {
        proof {
            use_type_invariant(self);
        }
        let v = self.cells[row * MAX_N + col];
        proof {
            use_type_invariant(&v);
        }
        v
    }
}

} // verus!
