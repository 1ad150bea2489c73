//! A linear system `A x = b` of at most `MAX_N` equations, with its
//! coefficients in a dense store and in a coordinate store side by side.
//!
//! The dense methods and the methods whose names end in `_sparse` do the
//! same work on the one store and on the other; the constants, the unknowns
//! and the dimension are shared.
use vstd::prelude::*;
use crate::decimal::{fields, parse_line, read_field, LineError, ParseError};
use crate::dense::DenseMatrix;
use crate::dominance::{diagonally_dominant, is_dominant};
use crate::fixed::{raw_values, Fixed};
use crate::model::solve;
use crate::solver::{solve_in_place, Coefficients, SolveReport, DEFAULT_CEILING, DEFAULT_TOLERANCE};
use crate::sparse::{grid_of, occupied, Entry, SparseMatrix, MAX_NON_ZEROS};
use crate::store::{StoreError, MAX_N};

verus! {

/// What reading a line of numbers into the system did.
#[derive(Clone, Copy, Debug, PartialEq, Eq, Structural)]
pub struct RowReport {
    /// How many numbers of the line were stored.
    pub stored: usize,
    /// Whether the line held more numbers than were stored.
    pub truncated: bool,
}

/// Why a line of numbers was not read into the system.
#[derive(Clone, Copy, Debug, PartialEq, Eq, Structural)]
pub enum InputError {
    /// The row is not below `MAX_N`.
    NoSuchRow,
    /// A field of the line is not a number in range.
    Unreadable(LineError),
}

/// Whether every field of a line is a numeral in range.
pub open spec fn readable(line: Seq<u8>) -> bool {
    forall|i: int| 0 <= i < fields(line).len() ==> (#[trigger] read_field(line, i)) is Ok
}

/// The smaller of two counts.
pub open spec fn at_most(count: int, limit: int) -> int {
    if count < limit {
        count
    } else {
        limit
    }
}

/// Copies the first `count` numbers of `from` over those of `to`.
fn copy_start(to: &mut Vec<Fixed>, from: &Vec<Fixed>, count: usize)
    requires
        count <= old(to)@.len(),
        count <= from@.len(),
    ensures
        final(to)@.len() == old(to)@.len(),
        forall|j: int|
            0 <= j < old(to)@.len() ==> final(to)@[j] == (if j < count {
                from@[j]
            } else {
                old(to)@[j]
            }),
    no_unwind
{
    let mut j: usize = 0;
    while j < count
        invariant
            j <= count,
            count <= from@.len(),
            count <= to@.len(),
            to@.len() == old(to)@.len(),
            forall|k: int|
                0 <= k < to@.len() ==> to@[k] == (if k < j {
                    from@[k]
                } else {
                    old(to)@[k]
                }),
        decreases count - j,
    {
        to[j] = from[j];
        j += 1;
    }
}

/// A vector of `MAX_N` zeros.
fn zeros() -> (r: Vec<Fixed>)
    ensures
        r@.len() == MAX_N,
        forall|j: int| 0 <= j < MAX_N ==> (#[trigger] r@[j])@ == 0,
{
    let mut r: Vec<Fixed> = Vec::new();
    let mut k: usize = 0;
    while k < MAX_N
        invariant
            k <= MAX_N,
            r@.len() == k,
            forall|j: int| 0 <= j < k ==> (#[trigger] r@[j])@ == 0,
        decreases MAX_N - k,
    {
        r.push(Fixed::zero());
        k += 1;
    }
    r
}

/// A linear system with both of its coefficient stores, its constants `b`
/// and its unknowns `x`.
pub struct LS {
    n: usize,
    a: DenseMatrix,
    sparse: SparseMatrix,
    b: Vec<Fixed>,
    x: Vec<Fixed>,
    tolerance: Fixed,
    ceiling: u32,
}

#[allow(non_snake_case)]
impl LS {
    #[verifier::type_invariant]
    closed spec fn sized(self) -> bool {
        &&& self.n <= MAX_N
        &&& self.b.len() == MAX_N
        &&& self.x.len() == MAX_N
    }

    /// The number of equations.
    pub closed spec fn dimension(self) -> nat {
        self.n as nat
    }

    /// The dense store.
    pub closed spec fn dense(self) -> DenseMatrix {
        self.a
    }

    /// The coordinate store.
    pub closed spec fn coordinates(self) -> SparseMatrix {
        self.sparse
    }

    /// The constants, `MAX_N` of them; those below the dimension are in use.
    pub closed spec fn constants(self) -> Seq<Fixed> {
        self.b@
    }

    /// The unknowns, `MAX_N` of them; those below the dimension are in use.
    pub closed spec fn unknowns(self) -> Seq<Fixed> {
        self.x@
    }

    /// The residual error at or below which a solve has converged.
    pub closed spec fn tolerance(self) -> Fixed {
        self.tolerance
    }

    /// The number of sweeps that a solve may make before its last one.
    pub closed spec fn ceiling(self) -> u32 {
        self.ceiling
    }

    /// Whether `self` differs from `other` in its unknowns at most.
    pub open spec fn same_equations(self, other: LS) -> bool {
        &&& self.dimension() == other.dimension()
        &&& self.dense() == other.dense()
        &&& self.coordinates() == other.coordinates()
        &&& self.constants() == other.constants()
        &&& self.tolerance() == other.tolerance()
        &&& self.ceiling() == other.ceiling()
    }

    /// How a solve of the dense system ends, from the system as it stands.
    pub open spec fn dense_outcome(self) -> crate::model::Outcome {
        solve(
            self.dense().grid(self.dimension() as int),
            raw_values(self.constants(), self.dimension() as int),
            raw_values(self.unknowns(), self.dimension() as int),
            self.tolerance()@,
            self.ceiling() as nat,
        )
    }

    /// How a solve of the system in the coordinate store ends, from the
    /// system as it stands.
    pub open spec fn sparse_outcome(self) -> crate::model::Outcome {
        solve(
            grid_of(self.coordinates()@, self.dimension() as int),
            raw_values(self.constants(), self.dimension() as int),
            raw_values(self.unknowns(), self.dimension() as int),
            self.tolerance()@,
            self.ceiling() as nat,
        )
    }

    /// A system without equations: dimension zero, both stores empty of
    /// coefficients, constants and unknowns zero, and the default tolerance
    /// and ceiling.
    pub fn new() -> (r: LS)
        ensures
            r.dimension() == 0,
            forall|i: int, j: int| 0 <= i < MAX_N && 0 <= j < MAX_N ==> r.dense().entry(i, j) == 0,
            r.coordinates()@.len() == 0,
            r.constants().len() == MAX_N,
            r.unknowns().len() == MAX_N,
            forall|j: int| 0 <= j < MAX_N ==> (#[trigger] r.constants()[j])@ == 0,
            forall|j: int| 0 <= j < MAX_N ==> (#[trigger] r.unknowns()[j])@ == 0,
            r.tolerance()@ == DEFAULT_TOLERANCE,
            r.ceiling() == DEFAULT_CEILING,
    {
        LS {
            n: 0,
            a: DenseMatrix::new(),
            sparse: SparseMatrix::new(),
            b: zeros(),
            x: zeros(),
            tolerance: Fixed::from_bounded(DEFAULT_TOLERANCE),
            ceiling: DEFAULT_CEILING,
        }
    }

    /// Sets the number of equations. More than `MAX_N` is refused.
    pub fn set_dimension(&mut self, n: usize) -> (r: Result<(), StoreError>)
        ensures
            match r {
                Ok(_) => {
                    &&& n <= MAX_N
                    &&& final(self).dimension() == n
                    &&& final(self).dense() == old(self).dense()
                    &&& final(self).coordinates() == old(self).coordinates()
                    &&& final(self).constants() == old(self).constants()
                    &&& final(self).unknowns() == old(self).unknowns()
                    &&& final(self).tolerance() == old(self).tolerance()
                    &&& final(self).ceiling() == old(self).ceiling()
                },
                Err(e) => e == StoreError::OutOfBounds && n > MAX_N && *final(self) == *old(self),
            },
    {
        proof {
            use_type_invariant(&*self);
        }
        if n > MAX_N {
            return Err(StoreError::OutOfBounds);
        }
        self.n = n;
        Ok(())
    }

    /// Sets the tolerance and the iteration ceiling of later solves.
    pub fn configure(&mut self, tolerance: Fixed, ceiling: u32)
        ensures
            final(self).tolerance() == tolerance,
            final(self).ceiling() == ceiling,
            final(self).dimension() == old(self).dimension(),
            final(self).dense() == old(self).dense(),
            final(self).coordinates() == old(self).coordinates(),
            final(self).constants() == old(self).constants(),
            final(self).unknowns() == old(self).unknowns(),
    {
        proof {
            use_type_invariant(&*self);
        }
        self.tolerance = tolerance;
        self.ceiling = ceiling;
    }

    /// The number of equations.
    pub fn n(&self) -> (r: usize)
        ensures
            r == self.dimension(),
            r <= MAX_N,
    {
        proof {
            use_type_invariant(self);
        }
        self.n
    }

    /// The dense coefficient at `(row, col)`, if the position lies in the
    /// grid.
    pub fn a(&self, row: usize, col: usize) -> (r: Option<Fixed>)
        ensures
            match r {
                Some(v) => row < MAX_N && col < MAX_N && v@ == self.dense().entry(
                    row as int,
                    col as int,
                ),
                None => row >= MAX_N || col >= MAX_N,
            },
    {
        self.a.get_element(row, col)
    }

    /// The number of entries of the coordinate store.
    pub fn non_zero_elements_count(&self) -> (r: usize)
        ensures
            r == self.coordinates()@.len(),
    {
        self.sparse.len()
    }

    /// The entry at place `k` of the coordinate store, as row, column and
    /// value, if there is one.
    pub fn sparse_entry(&self, k: usize) -> (r: Option<(usize, usize, Fixed)>)
        ensures
            match r {
                Some(e) => {
                    &&& k < self.coordinates()@.len()
                    &&& e.0 == self.coordinates()@[k as int].row
                    &&& e.1 == self.coordinates()@[k as int].col
                    &&& e.2@ == self.coordinates()@[k as int].value
                },
                None => k >= self.coordinates()@.len(),
            },
    {
        self.sparse.get(k)
    }

    /// The constant of equation `i`, if `i` is below `MAX_N`.
    pub fn b(&self, i: usize) -> (r: Option<Fixed>)
        ensures
            match r {
                Some(v) => i < MAX_N && v == self.constants()[i as int],
                None => i >= MAX_N,
            },
    {
        proof {
            use_type_invariant(self);
        }
        if i < MAX_N {
            Some(self.b[i])
        } else {
            None
        }
    }

    /// The unknown `i`, if `i` is below `MAX_N`.
    pub fn x(&self, i: usize) -> (r: Option<Fixed>)
        ensures
            match r {
                Some(v) => i < MAX_N && v == self.unknowns()[i as int],
                None => i >= MAX_N,
            },
    {
        proof {
            use_type_invariant(self);
        }
        if i < MAX_N {
            Some(self.x[i])
        } else {
            None
        }
    }

    /// Sets the constant of equation `i`. An `i` not below `MAX_N` is
    /// refused.
    pub fn set_b(&mut self, i: usize, value: Fixed) -> (r: Result<(), StoreError>)
        ensures
            match r {
                Ok(_) => {
                    &&& i < MAX_N
                    &&& final(self).constants() == old(self).constants().update(i as int, value)
                    &&& final(self).dimension() == old(self).dimension()
                    &&& final(self).dense() == old(self).dense()
                    &&& final(self).coordinates() == old(self).coordinates()
                    &&& final(self).unknowns() == old(self).unknowns()
                    &&& final(self).tolerance() == old(self).tolerance()
                    &&& final(self).ceiling() == old(self).ceiling()
                },
                Err(e) => e == StoreError::OutOfBounds && i >= MAX_N && *final(self) == *old(self),
            },
    {
        proof {
            use_type_invariant(&*self);
        }
        if i >= MAX_N {
            return Err(StoreError::OutOfBounds);
        }
        self.b[i] = value;
        Ok(())
    }

    /// Sets unknown `i`, as part of the seed of the next solve. An `i` not
    /// below `MAX_N` is refused.
    pub fn set_x(&mut self, i: usize, value: Fixed) -> (r: Result<(), StoreError>)
        ensures
            match r {
                Ok(_) => {
                    &&& i < MAX_N
                    &&& final(self).unknowns() == old(self).unknowns().update(i as int, value)
                    &&& final(self).same_equations(*old(self))
                },
                Err(e) => e == StoreError::OutOfBounds && i >= MAX_N && *final(self) == *old(self),
            },
    {
        proof {
            use_type_invariant(&*self);
        }
        if i >= MAX_N {
            return Err(StoreError::OutOfBounds);
        }
        self.x[i] = value;
        Ok(())
    }

    /// Overwrites the dense coefficient at `(row, col)`; nothing else
    /// changes. A position outside the grid is refused.
    pub fn modify_A_element(&mut self, row: usize, col: usize, new_value: Fixed) -> (r: Result<
        (),
        StoreError,
    >)
        ensures
            match r {
                Ok(_) => {
                    &&& row < MAX_N && col < MAX_N
                    &&& final(self).dense().entry(row as int, col as int) == new_value@
                    &&& forall|i: int, j: int|
                        0 <= i < MAX_N && 0 <= j < MAX_N && !(i == row && j == col)
                            ==> final(self).dense().entry(i, j) == old(self).dense().entry(i, j)
                    &&& final(self).dimension() == old(self).dimension()
                    &&& final(self).coordinates() == old(self).coordinates()
                    &&& final(self).constants() == old(self).constants()
                    &&& final(self).unknowns() == old(self).unknowns()
                    &&& final(self).tolerance() == old(self).tolerance()
                    &&& final(self).ceiling() == old(self).ceiling()
                },
                Err(e) => {
                    &&& e == StoreError::OutOfBounds
                    &&& row >= MAX_N || col >= MAX_N
                    &&& *final(self) == *old(self)
                },
            },
    {
        proof {
            use_type_invariant(&*self);
        }
        self.a.set_element(row, col, new_value)
    }

    /// Appends the coefficient `new_value` at `(row, col)` to the coordinate
    /// store; nothing else changes.
    ///
    /// Refused, with the system left as it was: a position outside the grid;
    /// else a position that already holds an entry; else any entry once the
    /// store holds `MAX_NON_ZEROS`.
    pub fn modify_A_element_sparse(&mut self, row: usize, col: usize, new_value: Fixed) -> (r:
        Result<(), StoreError>)
        ensures
            match r {
                Ok(_) => {
                    &&& row < MAX_N && col < MAX_N
                    &&& !occupied(old(self).coordinates()@, row as int, col as int)
                    &&& old(self).coordinates()@.len() < MAX_NON_ZEROS
                    &&& final(self).coordinates()@ == old(self).coordinates()@.push(
                        Entry { row: row as int, col: col as int, value: new_value@ },
                    )
                    &&& final(self).dimension() == old(self).dimension()
                    &&& final(self).dense() == old(self).dense()
                    &&& final(self).constants() == old(self).constants()
                    &&& final(self).unknowns() == old(self).unknowns()
                    &&& final(self).tolerance() == old(self).tolerance()
                    &&& final(self).ceiling() == old(self).ceiling()
                },
                Err(StoreError::OutOfBounds) => {
                    &&& row >= MAX_N || col >= MAX_N
                    &&& *final(self) == *old(self)
                },
                Err(StoreError::Duplicate) => {
                    &&& row < MAX_N && col < MAX_N
                    &&& occupied(old(self).coordinates()@, row as int, col as int)
                    &&& *final(self) == *old(self)
                },
                Err(StoreError::CapacityExceeded) => {
                    &&& row < MAX_N && col < MAX_N
                    &&& !occupied(old(self).coordinates()@, row as int, col as int)
                    &&& old(self).coordinates()@.len() == MAX_NON_ZEROS
                    &&& *final(self) == *old(self)
                },
            },
    {
        proof {
            use_type_invariant(&*self);
        }
        self.sparse.add_element(row, col, new_value)
    }

    /// Whether every row of the dense system passes the dominance test.
    pub fn check_for_diagonal_dominant(&self) -> (r: bool)
        ensures
            r == diagonally_dominant(self.dense().grid(self.dimension() as int)),
    {
        proof {
            use_type_invariant(self);
        }
        is_dominant(&Coefficients::Dense(&self.a), self.n)
    }

    /// Whether every row of the system in the coordinate store passes the
    /// dominance test.
    pub fn check_for_diagonal_dominant_sparse(&self) -> (r: bool)
        ensures
            r == diagonally_dominant(grid_of(self.coordinates()@, self.dimension() as int)),
    {
        proof {
            use_type_invariant(self);
        }
        is_dominant(&Coefficients::Sparse(&self.sparse), self.n)
    }

    /// A copy of the unknowns to work on.
    fn seed(&self) -> (r: Vec<Fixed>)
        ensures
            r@ == self.unknowns(),
            r@.len() == MAX_N,
            self.dimension() <= MAX_N,
            self.constants().len() == MAX_N,
    {
        proof {
            use_type_invariant(self);
        }
        let mut r: Vec<Fixed> = Vec::new();
        let mut k: usize = 0;
        while k < MAX_N
            invariant
                k <= MAX_N,
                self.x@.len() == MAX_N,
                r@.len() == k,
                forall|j: int| 0 <= j < k ==> r@[j] == self.x@[j],
            decreases MAX_N - k,
        {
            r.push(self.x[k]);
            k += 1;
        }
        r
    }

    /// Solves the dense system by Gauss-Seidel iteration, from the unknowns
    /// as they stand, and leaves the unknowns as the iteration left them.
    ///
    /// Each sweep takes the rows in order and replaces a row's unknown at
    /// once by its constant less the other coefficients' products, over the
    /// diagonal coefficient. After each sweep the residual error is
    /// measured; the solve ends once it is at most the tolerance, or once
    /// more sweeps than the ceiling have been made. A zero on the diagonal
    /// ends it before the first sweep, and an unknown out of range ends it
    /// at that row.
    pub fn guass_sidel(&mut self) -> (report: SolveReport)
        ensures
            report.status == old(self).dense_outcome().status,
            report.trace() == old(self).dense_outcome().residuals,
            raw_values(final(self).unknowns(), old(self).dimension() as int)
                == old(self).dense_outcome().x,
            forall|j: int|
                old(self).dimension() <= j < MAX_N
                    ==> final(self).unknowns()[j] == old(self).unknowns()[j],
            final(self).same_equations(*old(self)),
    {
        let mut x = self.seed();
        let report = solve_in_place(
            &Coefficients::Dense(&self.a),
            &self.b,
            &mut x,
            self.n,
            self.tolerance,
            self.ceiling,
        );
        self.x = x;
        report
    }

    /// Solves the system in the coordinate store, exactly as `guass_sidel`
    /// solves the dense one. Each row's terms are gathered by a pass over
    /// the entries.
    pub fn guass_sidel_sparse(&mut self) -> (report: SolveReport)
        ensures
            report.status == old(self).sparse_outcome().status,
            report.trace() == old(self).sparse_outcome().residuals,
            raw_values(final(self).unknowns(), old(self).dimension() as int)
                == old(self).sparse_outcome().x,
            forall|j: int|
                old(self).dimension() <= j < MAX_N
                    ==> final(self).unknowns()[j] == old(self).unknowns()[j],
            final(self).same_equations(*old(self)),
    {
        let mut x = self.seed();
        let report = solve_in_place(
            &Coefficients::Sparse(&self.sparse),
            &self.b,
            &mut x,
            self.n,
            self.tolerance,
            self.ceiling,
        );
        self.x = x;
        report
    }
}

#[allow(non_snake_case)]
impl LS {
    /// How many numbers a line for `row` of the coefficients may store: the
    /// first row may fill the grid's width, a later row the dimension that
    /// the first row set.
    pub open spec fn row_limit(self, row: int) -> int {
        if row == 0 {
            MAX_N as int
        } else {
            self.dimension() as int
        }
    }

    /// Reads one line of numbers, separated by commas, into row `row` of the
    /// dense store.
    ///
    /// The numbers are stored from column zero on, up to the row's limit;
    /// what the line holds beyond that is left out and reported as a
    /// truncation. Row zero also sets the dimension to the number of values
    /// stored. A line with a field that is not a number in range is refused
    /// as a whole, as is a row outside the grid; the system is then left as
    /// it was.
    pub fn read_row_of_A(&mut self, row: usize, line: &[u8]) -> (r: Result<RowReport, InputError>)
        ensures
            match r {
                Ok(report) => {
                    &&& row < MAX_N
                    &&& readable(line@)
                    &&& report.stored == at_most(
                        fields(line@).len() as int,
                        old(self).row_limit(row as int),
                    )
                    &&& report.truncated == (fields(line@).len() > old(self).row_limit(row as int))
                    &&& final(self).dimension() == (if row == 0 {
                        report.stored as nat
                    } else {
                        old(self).dimension()
                    })
                    &&& forall|j: int|
                        0 <= j < report.stored ==> read_field(line@, j) == Ok::<int, ParseError>(
                            #[trigger] final(self).dense().entry(row as int, j),
                        )
                    &&& forall|i: int, j: int|
                        0 <= i < MAX_N && 0 <= j < MAX_N && !(i == row && j < report.stored)
                            ==> final(self).dense().entry(i, j) == old(self).dense().entry(i, j)
                    &&& final(self).coordinates() == old(self).coordinates()
                    &&& final(self).constants() == old(self).constants()
                    &&& final(self).unknowns() == old(self).unknowns()
                    &&& final(self).tolerance() == old(self).tolerance()
                    &&& final(self).ceiling() == old(self).ceiling()
                },
                Err(InputError::NoSuchRow) => row >= MAX_N && *final(self) == *old(self),
                Err(InputError::Unreadable(e)) => {
                    &&& row < MAX_N
                    &&& e.field < fields(line@).len()
                    &&& read_field(line@, e.field as int) == Err::<int, ParseError>(e.kind)
                    &&& forall|j: int| 0 <= j < e.field ==> (#[trigger] read_field(line@, j)) is Ok
                    &&& *final(self) == *old(self)
                },
            },
    {
        proof {
            use_type_invariant(&*self);
        }
        if row >= MAX_N {
            return Err(InputError::NoSuchRow);
        }
        match parse_line(line) {
            Err(e) => Err(InputError::Unreadable(e)),
            Ok(values) => {
                let limit = if row == 0 {
                    MAX_N
                } else {
                    self.n
                };
                let count = values.len();
                let stored = if count < limit {
                    count
                } else {
                    limit
                };
                self.a.set_row_start(row, &values, stored);
                if row == 0 {
                    self.n = stored;
                }
                proof {
                    assert forall|i: int| 0 <= i < fields(line@).len() implies (#[trigger] read_field(
                        line@,
                        i,
                    )) is Ok by {
                        assert(read_field(line@, i) == Ok::<int, ParseError>(values@[i]@));
                    }
                }
                Ok(RowReport { stored, truncated: count > limit })
            },
        }
    }

    /// Reads one line of numbers, separated by commas, into the constants.
    ///
    /// The numbers are stored from equation zero on, up to the dimension;
    /// what the line holds beyond that is left out and reported as a
    /// truncation. A line with a field that is not a number in range is
    /// refused as a whole, and the system is then left as it was.
    pub fn read_B(&mut self, line: &[u8]) -> (r: Result<RowReport, LineError>)
        ensures
            match r {
                Ok(report) => {
                    &&& readable(line@)
                    &&& report.stored == at_most(fields(line@).len() as int, old(self).dimension() as int)
                    &&& report.truncated == (fields(line@).len() > old(self).dimension())
                    &&& final(self).constants().len() == old(self).constants().len()
                    &&& forall|j: int|
                        0 <= j < report.stored ==> read_field(line@, j) == Ok::<int, ParseError>(
                            (#[trigger] final(self).constants()[j])@,
                        )
                    &&& forall|j: int|
                        report.stored <= j < MAX_N
                            ==> final(self).constants()[j] == old(self).constants()[j]
                    &&& final(self).dimension() == old(self).dimension()
                    &&& final(self).dense() == old(self).dense()
                    &&& final(self).coordinates() == old(self).coordinates()
                    &&& final(self).unknowns() == old(self).unknowns()
                    &&& final(self).tolerance() == old(self).tolerance()
                    &&& final(self).ceiling() == old(self).ceiling()
                },
                Err(e) => {
                    &&& e.field < fields(line@).len()
                    &&& read_field(line@, e.field as int) == Err::<int, ParseError>(e.kind)
                    &&& forall|j: int| 0 <= j < e.field ==> (#[trigger] read_field(line@, j)) is Ok
                    &&& *final(self) == *old(self)
                },
            },
    {
        proof {
            use_type_invariant(&*self);
        }
        match parse_line(line) {
            Err(e) => Err(e),
            Ok(values) => {
                let limit = self.n;
                let count = values.len();
                let stored = if count < limit {
                    count
                } else {
                    limit
                };
                copy_start(&mut self.b, &values, stored);
                proof {
                    assert forall|i: int| 0 <= i < fields(line@).len() implies (#[trigger] read_field(
                        line@,
                        i,
                    )) is Ok by {
                        assert(read_field(line@, i) == Ok::<int, ParseError>(values@[i]@));
                    }
                }
                Ok(RowReport { stored, truncated: count > limit })
            },
        }
    }
}

} // verus!
