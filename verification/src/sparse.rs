//! The coordinate store: only the coefficients that were added, each with
//! its row and its column, in the order in which they came.
use vstd::prelude::*;
use crate::fixed::{in_range, Fixed};
use crate::store::{StoreError, MAX_N};

verus! {

/// Largest number of coefficients that the coordinate store holds.
pub const MAX_NON_ZEROS: usize = 4;

/// One stored coefficient: its position and its raw count.
pub struct Entry {
    pub row: int,
    pub col: int,
    pub value: int,
}

/// Whether some entry lies at `(row, col)`.
pub open spec fn occupied(entries: Seq<Entry>, row: int, col: int) -> bool {
    exists|k: int|
        0 <= k < entries.len() && (#[trigger] entries[k]).row == row && entries[k].col == col
}

/// The coefficient at `(row, col)`: the value of the entry there, and zero
/// where there is none.
pub open spec fn coefficient(entries: Seq<Entry>, row: int, col: int) -> int
    decreases entries.len(),
{
    if entries.len() == 0 {
        0
    } else if entries.last().row == row && entries.last().col == col {
        entries.last().value
    } else {
        coefficient(entries.drop_last(), row, col)
    }
}

/// The coefficients that a system of dimension `n` uses, row by row.
pub open spec fn grid_of(entries: Seq<Entry>, n: int) -> Seq<Seq<int>> {
    Seq::new(n as nat, |i: int| Seq::new(n as nat, |j: int| coefficient(entries, i, j)))
}

/// What the store keeps true of its entries: there are at most
/// `MAX_NON_ZEROS` of them, each lies in the grid and holds a raw count in
/// range, and no two share a position.
pub open spec fn well_formed(entries: Seq<Entry>) -> bool {
    &&& entries.len() <= MAX_NON_ZEROS
    &&& forall|k: int|
        0 <= k < entries.len() ==> {
            &&& 0 <= (#[trigger] entries[k]).row < MAX_N
            &&& 0 <= entries[k].col < MAX_N
            &&& in_range(entries[k].value)
        }
    &&& forall|k: int, l: int|
        0 <= k < l < entries.len() ==> !((#[trigger] entries[k]).row == (#[trigger] entries[l]).row
            && entries[k].col == entries[l].col)
}

/// Where no entry lies, the coefficient is zero.
pub proof fn lemma_vacant_is_zero(entries: Seq<Entry>, row: int, col: int)
    requires
        !occupied(entries, row, col),
    ensures
        coefficient(entries, row, col) == 0,
    decreases entries.len(),
{
    if entries.len() > 0 {
        lemma_vacant_is_zero(entries.drop_last(), row, col);
    }
}

/// Among entries with distinct positions, the coefficient at an entry's
/// position is that entry's value.
pub proof fn lemma_coefficient_of_entry(entries: Seq<Entry>, k: int)
    requires
        well_formed(entries),
        0 <= k < entries.len(),
    ensures
        coefficient(entries, entries[k].row, entries[k].col) == entries[k].value,
    decreases entries.len(),
{
    if k < entries.len() - 1 {
        lemma_coefficient_of_entry(entries.drop_last(), k);
    }
}

/// The coefficients in coordinate form.
///
/// The rows, the columns and the values are kept in three sequences of equal
/// length; only the first `count` places of each are in use.
pub struct SparseMatrix {
    rows: Vec<usize>,
    cols: Vec<usize>,
    values: Vec<Fixed>,
    count: usize,
}

impl View for SparseMatrix {
    type V = Seq<Entry>;

    /// The entries in the order in which they were added.
    closed spec fn view(&self) -> Seq<Entry> {
        Seq::new(
            self.count as nat,
            |k: int|
                Entry { row: self.rows[k] as int, col: self.cols[k] as int, value: self.values[k]@ },
        )
    }
}

impl SparseMatrix {
    #[verifier::type_invariant]
    closed spec fn consistent(self) -> bool {
        &&& self.rows.len() == MAX_NON_ZEROS
        &&& self.cols.len() == MAX_NON_ZEROS
        &&& self.values.len() == MAX_NON_ZEROS
        &&& self.count <= MAX_NON_ZEROS
        &&& forall|k: int|
            0 <= k < self.count ==> {
                &&& (#[trigger] self.rows[k]) < MAX_N
                &&& self.cols[k] < MAX_N
                &&& in_range(self.values[k]@)
            }
        &&& forall|k: int, l: int|
            0 <= k < l < self.count ==> !((#[trigger] self.rows[k]) == (#[trigger] self.rows[l])
                && self.cols[k] == self.cols[l])
    }

    /// An empty store.
    pub fn new() -> (r: SparseMatrix)
        ensures
            r@.len() == 0,
    {
        let mut rows: Vec<usize> = Vec::new();
        let mut cols: Vec<usize> = Vec::new();
        let mut values: Vec<Fixed> = Vec::new();
        let mut k: usize = 0;
        while k < MAX_NON_ZEROS
            invariant
                k <= MAX_NON_ZEROS,
                rows@.len() == k,
                cols@.len() == k,
                values@.len() == k,
            decreases MAX_NON_ZEROS - k,
        {
            rows.push(0);
            cols.push(0);
            values.push(Fixed::zero());
            k += 1;
        }
        SparseMatrix { rows, cols, values, count: 0 }
    }

    /// Number of entries.
    pub fn len(&self) -> (r: usize)
        ensures
            r == self@.len(),
            well_formed(self@),
    {
        proof {
            use_type_invariant(self);
        }
        self.count
    }

    /// Whether an entry lies at `(row, col)`.
    pub fn contains(&self, row: usize, col: usize) -> (r: bool)
        ensures
            r == occupied(self@, row as int, col as int),
        no_unwind
    {
        proof {
            use_type_invariant(self);
        }
        let mut k: usize = 0;
        while k < self.count
            invariant
                k <= self.count <= MAX_NON_ZEROS,
                self.rows.len() == MAX_NON_ZEROS,
                self.cols.len() == MAX_NON_ZEROS,
                forall|i: int| 0 <= i < k ==> !((#[trigger] self@[i]).row == row && self@[i].col == col),
            decreases self.count - k,
        {
            if self.rows[k] == row && self.cols[k] == col {
                assert(self@[k as int].row == row && self@[k as int].col == col);
                return true;
            }
            k += 1;
        }
        false
    }

    /// Appends the coefficient `value` at `(row, col)`.
    ///
    /// Refused, with the store left as it was: a position outside the grid;
    /// else a position that already holds an entry; else any entry once the
    /// store is full.
    pub fn add_element(&mut self, row: usize, col: usize, value: Fixed) -> (r: Result<
        (),
        StoreError,
    >)
        ensures
            match r {
                Ok(_) => {
                    &&& row < MAX_N && col < MAX_N
                    &&& !occupied(old(self)@, row as int, col as int)
                    &&& old(self)@.len() < MAX_NON_ZEROS
                    &&& final(self)@ == old(self)@.push(
                        Entry { row: row as int, col: col as int, value: value@ },
                    )
                },
                Err(StoreError::OutOfBounds) => {
                    &&& row >= MAX_N || col >= MAX_N
                    &&& *final(self) == *old(self)
                },
                Err(StoreError::Duplicate) => {
                    &&& row < MAX_N && col < MAX_N
                    &&& occupied(old(self)@, row as int, col as int)
                    &&& *final(self) == *old(self)
                },
                Err(StoreError::CapacityExceeded) => {
                    &&& row < MAX_N && col < MAX_N
                    &&& !occupied(old(self)@, row as int, col as int)
                    &&& old(self)@.len() == MAX_NON_ZEROS
                    &&& *final(self) == *old(self)
                },
            },
        no_unwind
    {
        proof {
            use_type_invariant(&*self);
            use_type_invariant(&value);
        }
        if row >= MAX_N || col >= MAX_N {
            return Err(StoreError::OutOfBounds);
        }
        if self.contains(row, col) {
            return Err(StoreError::Duplicate);
        }
        if self.count >= MAX_NON_ZEROS {
            return Err(StoreError::CapacityExceeded);
        }
        let at = self.count;
        let ghost before = self@;
        assert forall|k: int| 0 <= k < at implies !(self.rows[k] == row && self.cols[k] == col) by {
            assert(before[k].row == self.rows[k] && before[k].col == self.cols[k]);
        }
        self.rows[at] = row;
        self.cols[at] = col;
        self.values[at] = value;
        self.count = at + 1;
        Ok(())
    }

    /// The entry at place `k`, as row, column and value, if there is one.
    pub fn get(&self, k: usize) -> (r: Option<(usize, usize, Fixed)>)
        ensures
            match r {
                Some(e) => {
                    &&& k < self@.len()
                    &&& e.0 == self@[k as int].row
                    &&& e.1 == self@[k as int].col
                    &&& e.2@ == self@[k as int].value
                },
                None => k >= self@.len(),
            },
    {
        if k < self.count {
            Some(self.at(k))
        } else {
            None
        }
    }

    /// The entry at a place that is in use.
    pub(crate) fn at(&self, k: usize) -> (r: (usize, usize, Fixed))
        requires
            k < self@.len(),
        ensures
            r.0 == self@[k as int].row,
            r.1 == self@[k as int].col,
            r.2@ == self@[k as int].value,
            r.0 < MAX_N,
            r.1 < MAX_N,
            in_range(r.2@),
    {
        proof {
            use_type_invariant(self);
        }
        (self.rows[k], self.cols[k], self.values[k])
    }
}

} // verus!
