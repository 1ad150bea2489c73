//! The solver: Gauss-Seidel sweeps over either store, until the residual
//! error is small enough or the iteration ceiling is passed.
use vstd::prelude::*;
use crate::dense::DenseMatrix;
use crate::fixed::{in_range, raw_values, Fixed, LIMIT, SCALE};
use crate::model::{
    has_zero_diagonal, iterate, lemma_product_bound, lemma_sum_bound, lemma_sum_restore,
    lemma_sum_update, product_bound, products, residual_error, residual_magnitudes, round_div,
    solve, sum_except, sweep_from, SolveStatus, Sweep,
};
use crate::sparse::{
    coefficient, grid_of, lemma_vacant_is_zero, well_formed, Entry, SparseMatrix,
};
use crate::store::MAX_N;

verus! {

/// The tolerance that a solve uses unless told otherwise: one ten-thousandth,
/// as a raw count.
pub const DEFAULT_TOLERANCE: i64 = 100_000;

/// The iteration ceiling that a solve uses unless told otherwise.
pub const DEFAULT_CEILING: u32 = 1000;

/// The coefficients of a system, in whichever store holds them.
pub(crate) enum Coefficients<'a> {
    Dense(&'a DenseMatrix),
    Sparse(&'a SparseMatrix),
}

impl<'a> Coefficients<'a> {
    /// The coefficients that a system of dimension `n` uses, row by row.
    pub(crate) open spec fn grid(self, n: int) -> Seq<Seq<int>> {
        match self {
            Coefficients::Dense(d) => d.grid(n),
            Coefficients::Sparse(s) => grid_of(s@, n),
        }
    }
}

/// What a solve reports besides the unknowns themselves.
pub struct SolveReport {
    /// How the solve ended.
    pub status: SolveStatus,
    /// The residual error after each completed sweep, in order, in units of
    /// a billionth of a billionth.
    pub residuals: Vec<i128>,
}

/// The same numbers as unbounded integers.
pub open spec fn as_ints(s: Seq<i128>) -> Seq<int> {
    s.map_values(|r: i128| r as int)
}

impl SolveReport {
    /// The residual errors as integers.
    pub open spec fn trace(self) -> Seq<int> {
        as_ints(self.residuals@)
    }

    /// Number of completed sweeps.
    pub fn iterations(&self) -> (r: usize)
        ensures
            r == self.trace().len(),
    {
        self.residuals.len()
    }
}

/// The quotient of `num` by `den` to the nearest raw count, unless it is out
/// of range.
fn divide(num: i128, den: Fixed) -> (r: Option<Fixed>)
    requires
        den@ != 0,
        -5 * product_bound() <= num <= 5 * product_bound(),
    ensures
        match r {
            Some(v) => v@ == round_div(num as int, den@),
            None => !in_range(round_div(num as int, den@)),
        },
{
    let d = den.raw();
    let un: u128 = if num < 0 {
        (-num) as u128
    } else {
        num as u128
    };
    let ud: u128 = if d < 0 {
        (-d) as u128
    } else {
        d as u128
    };
    let q: u128 = (2 * un + ud) / (2 * ud);
    if q > LIMIT as u128 {
        None
    } else if (num < 0) != (d < 0) {
        Some(Fixed::from_bounded(-(q as i64)))
    } else {
        Some(Fixed::from_bounded(q as i64))
    }
}

/// For row `i` of a dense store: the sum of the products of the other
/// coefficients with their unknowns, and the diagonal coefficient.
fn dense_row_terms(a: &DenseMatrix, x: &Vec<Fixed>, n: usize, i: usize) -> (r: (i128, Fixed))
    requires
        i < n <= MAX_N,
        x@.len() >= n,
    ensures
        r.0 == sum_except(products(a.grid(n as int)[i as int], raw_values(x@, n as int)), i as int, n as int),
        r.1@ == a.grid(n as int)[i as int][i as int],
        in_range(r.1@),
        -4 * product_bound() <= r.0 <= 4 * product_bound(),
{
    let ghost terms = products(a.grid(n as int)[i as int], raw_values(x@, n as int));
    let mut acc: i128 = 0;
    let mut j: usize = 0;
    while j < n
        invariant
            i < n <= MAX_N,
            x@.len() >= n,
            j <= n,
            terms == products(a.grid(n as int)[i as int], raw_values(x@, n as int)),
            acc == sum_except(terms, i as int, j as int),
            -j * 1_000_000_000_000_000_000_000_000_000_000_000_000 <= acc,
            acc <= j * 1_000_000_000_000_000_000_000_000_000_000_000_000,
        decreases n - j,
    {
        if j != i {
            let c = a.at(i, j);
            let v = x[j];
            proof {
                use_type_invariant(&v);
                lemma_product_bound(c@, v@);
            }
            acc = acc + (c.raw() as i128) * (v.raw() as i128);
        }
        j += 1;
    }
    (acc, a.at(i, i))
}

/// What the entry at place `k` adds to row `i` of the grid built from the
/// entries before it: its product with its unknown if it lies in that row
/// off the diagonal, the diagonal coefficient if it lies on the diagonal,
/// and nothing otherwise.
proof fn lemma_entry_joins_row(entries: Seq<Entry>, k: int, n: int, i: int, xs: Seq<int>)
    requires
        well_formed(entries),
        0 <= k < entries.len(),
        0 <= i < n <= MAX_N,
        xs.len() == n,
    ensures
        ({
            let before = entries.take(k);
            let after = entries.take(k + 1);
            let e = entries[k];
            let old_sum = sum_except(products(grid_of(before, n)[i], xs), i, n);
            let new_sum = sum_except(products(grid_of(after, n)[i], xs), i, n);
            &&& new_sum == old_sum + (if e.row == i && e.col < n && e.col != i {
                e.value * xs[e.col]
            } else {
                0
            })
            &&& coefficient(after, i, i) == (if e.row == i && e.col == i {
                e.value
            } else {
                coefficient(before, i, i)
            })
        }),
{
    let before = entries.take(k);
    let after = entries.take(k + 1);
    let e = entries[k];
    assert(after.drop_last() =~= before);
    let old_row = grid_of(before, n)[i];
    let new_row = grid_of(after, n)[i];
    if e.row == i && e.col < n {
        let c = e.col;
        lemma_vacant_is_zero(before, i, c);
        assert(products(new_row, xs) =~= products(old_row, xs).update(c, e.value * xs[c]));
        lemma_sum_update(products(old_row, xs), i, n, c, e.value * xs[c]);
        assert(products(old_row, xs)[c] == 0) by (nonlinear_arith)
            requires
                products(old_row, xs)[c] == old_row[c] * xs[c],
                old_row[c] == 0,
        ;
    } else {
        assert(new_row =~= old_row);
    }
}

/// For row `i` of a coordinate store: the sum of the products of the other
/// coefficients with their unknowns, and the diagonal coefficient, both
/// gathered in one pass over the entries.
fn sparse_row_terms(s: &SparseMatrix, x: &Vec<Fixed>, n: usize, i: usize) -> (r: (i128, Fixed))
    requires
        i < n <= MAX_N,
        x@.len() >= n,
    ensures
        r.0 == sum_except(
            products(grid_of(s@, n as int)[i as int], raw_values(x@, n as int)),
            i as int,
            n as int,
        ),
        r.1@ == grid_of(s@, n as int)[i as int][i as int],
        in_range(r.1@),
        -4 * product_bound() <= r.0 <= 4 * product_bound(),
{
    let count = s.len();
    let ghost xs = raw_values(x@, n as int);
    let mut acc: i128 = 0;
    let mut diag = Fixed::zero();
    let mut k: usize = 0;
    proof {
        lemma_sum_bound(products(grid_of(s@.take(0), n as int)[i as int], xs), i as int, n as int, 0);
    }
    while k < count
        invariant
            i < n <= MAX_N,
            x@.len() >= n,
            k <= count,
            count == s@.len(),
            count <= 4,
            well_formed(s@),
            xs == raw_values(x@, n as int),
            acc == sum_except(products(grid_of(s@.take(k as int), n as int)[i as int], xs), i as int, n as int),
            diag@ == coefficient(s@.take(k as int), i as int, i as int),
            in_range(diag@),
            -k * 1_000_000_000_000_000_000_000_000_000_000_000_000 <= acc,
            acc <= k * 1_000_000_000_000_000_000_000_000_000_000_000_000,
        decreases count - k,
    {
        let e = s.at(k);
        proof {
            lemma_entry_joins_row(s@, k as int, n as int, i as int, xs);
        }
        if e.0 == i && e.1 < n {
            if e.1 != i {
                let v = x[e.1];
                proof {
                    use_type_invariant(&v);
                    lemma_product_bound(e.2@, v@);
                }
                acc = acc + (e.2.raw() as i128) * (v.raw() as i128);
            } else {
                diag = e.2;
            }
        }
        k += 1;
    }
    assert(s@.take(count as int) =~= s@);
    (acc, diag)
}

impl<'a> Coefficients<'a> {
    /// For row `i`: the sum of the products of the other coefficients with
    /// their unknowns, and the diagonal coefficient.
    pub(crate) fn row_terms(&self, x: &Vec<Fixed>, n: usize, i: usize) -> (r: (i128, Fixed))
        requires
            i < n <= MAX_N,
            x@.len() >= n,
        ensures
            r.0 == sum_except(
                products(self.grid(n as int)[i as int], raw_values(x@, n as int)),
                i as int,
                n as int,
            ),
            r.1@ == self.grid(n as int)[i as int][i as int],
            in_range(r.1@),
            -4 * product_bound() <= r.0 <= 4 * product_bound(),
    {
        match self {
            Coefficients::Dense(a) => dense_row_terms(a, x, n, i),
            Coefficients::Sparse(s) => sparse_row_terms(s, x, n, i),
        }
    }
}

/// One sweep over all rows, in place. Returns whether it reached the last
/// row; if not, the row at which it stopped and those after it are as they
/// were.
fn sweep(c: &Coefficients, b: &Vec<Fixed>, x: &mut Vec<Fixed>, n: usize) -> (complete: bool)
    requires
        n <= MAX_N,
        b@.len() >= n,
        old(x)@.len() >= n,
        !has_zero_diagonal(c.grid(n as int), n as int),
    ensures
        final(x)@.len() == old(x)@.len(),
        forall|j: int| n <= j < old(x)@.len() ==> final(x)@[j] == old(x)@[j],
        sweep_from(c.grid(n as int), raw_values(b@, n as int), raw_values(old(x)@, n as int), 0)
            == (Sweep { x: raw_values(final(x)@, n as int), complete }),
{
    let ghost m = c.grid(n as int);
    let ghost bs = raw_values(b@, n as int);
    let ghost start = raw_values(x@, n as int);
    let mut i: usize = 0;
    while i < n
        invariant
            n <= MAX_N,
            b@.len() >= n,
            x@.len() == old(x)@.len(),
            x@.len() >= n,
            i <= n,
            m == c.grid(n as int),
            bs == raw_values(b@, n as int),
            !has_zero_diagonal(m, n as int),
            forall|j: int| n <= j < x@.len() ==> x@[j] == old(x)@[j],
            start == raw_values(old(x)@, n as int),
            sweep_from(m, bs, start, 0) == sweep_from(m, bs, raw_values(x@, n as int), i as int),
        decreases n - i,
    {
        let ghost xs = raw_values(x@, n as int);
        let terms = c.row_terms(x, n, i);
        let constant = b[i];
        let num: i128 = (constant.raw() as i128) * (SCALE as i128) - terms.0;
        match divide(num, terms.1) {
            None => {
                return false;
            },
            Some(v) => {
                proof {
                    use_type_invariant(&v);
                }
                x[i] = v;
                assert(raw_values(x@, n as int) =~= xs.update(i as int, v@));
            },
        }
        i += 1;
    }
    true
}

/// The residual error of the unknowns as they stand.
fn residual(c: &Coefficients, b: &Vec<Fixed>, x: &Vec<Fixed>, n: usize) -> (r: i128)
    requires
        n <= MAX_N,
        b@.len() >= n,
        x@.len() >= n,
    ensures
        r == residual_error(c.grid(n as int), raw_values(b@, n as int), raw_values(x@, n as int)),
        0 <= r,
{
    let ghost m = c.grid(n as int);
    let ghost bs = raw_values(b@, n as int);
    let ghost xs = raw_values(x@, n as int);
    let ghost mags = residual_magnitudes(m, bs, xs);
    let mut acc: i128 = 0;
    let mut i: usize = 0;
    while i < n
        invariant
            n <= MAX_N,
            b@.len() >= n,
            x@.len() >= n,
            i <= n,
            m == c.grid(n as int),
            bs == raw_values(b@, n as int),
            xs == raw_values(x@, n as int),
            mags == residual_magnitudes(m, bs, xs),
            acc == sum_except(mags, -1, i as int),
            0 <= acc <= i * 6_000_000_000_000_000_000_000_000_000_000_000_000,
        decreases n - i,
    {
        let terms = c.row_terms(x, n, i);
        let own = x[i];
        let constant = b[i];
        proof {
            use_type_invariant(&own);
            lemma_product_bound(terms.1@, own@);
            let p = products(m[i as int], xs);
            lemma_sum_restore(p, i as int, n as int);
        }
        let left: i128 = terms.0 + (terms.1.raw() as i128) * (own.raw() as i128);
        let excess: i128 = left - (constant.raw() as i128) * (SCALE as i128);
        let size: i128 = if excess < 0 {
            -excess
        } else {
            excess
        };
        acc = acc + size;
        i += 1;
    }
    acc
}

/// Solves the system of dimension `n` in place, from the seed that `x`
/// holds, and reports how the solve ended.
pub(crate) fn solve_in_place(
    c: &Coefficients,
    b: &Vec<Fixed>,
    x: &mut Vec<Fixed>,
    n: usize,
    tolerance: Fixed,
    ceiling: u32,
) -> (report: SolveReport)
    requires
        n <= MAX_N,
        b@.len() >= n,
        old(x)@.len() >= n,
    ensures
        final(x)@.len() == old(x)@.len(),
        forall|j: int| n <= j < old(x)@.len() ==> final(x)@[j] == old(x)@[j],
        ({
            let out = solve(
                c.grid(n as int),
                raw_values(b@, n as int),
                raw_values(old(x)@, n as int),
                tolerance@,
                ceiling as nat,
            );
            &&& report.status == out.status
            &&& report.trace() == out.residuals
            &&& raw_values(final(x)@, n as int) == out.x
        }),
{
    let ghost m = c.grid(n as int);
    let ghost bs = raw_values(b@, n as int);
    let ghost seed = raw_values(x@, n as int);
    let mut residuals: Vec<i128> = Vec::new();
    assert(as_ints(residuals@) =~= Seq::<int>::empty());
    if n == 0 {
        return SolveReport { status: SolveStatus::Converged, residuals };
    }
    let mut i: usize = 0;
    while i < n
        invariant
            n <= MAX_N,
            x@.len() >= n,
            x@ == old(x)@,
            i <= n,
            m == c.grid(n as int),
            bs == raw_values(b@, n as int),
            seed == raw_values(old(x)@, n as int),
            residuals@.len() == 0,
            forall|j: int| 0 <= j < i ==> #[trigger] m[j][j] != 0,
        decreases n - i,
    {
        let terms = c.row_terms(x, n, i);
        if terms.1.is_zero() {
            return SolveReport { status: SolveStatus::InvalidMatrix, residuals };
        }
        i += 1;
    }
    let bound: i128 = (tolerance.raw() as i128) * (SCALE as i128);
    loop
        invariant
            0 < n <= MAX_N,
            b@.len() >= n,
            x@.len() == old(x)@.len(),
            x@.len() >= n,
            m == c.grid(n as int),
            bs == raw_values(b@, n as int),
            !has_zero_diagonal(m, n as int),
            bound == tolerance@ * SCALE,
            residuals@.len() <= ceiling,
            seed == raw_values(old(x)@, n as int),
            forall|j: int| n <= j < x@.len() ==> x@[j] == old(x)@[j],
            iterate(m, bs, seed, tolerance@, ceiling as nat, Seq::empty()) == iterate(
                m,
                bs,
                raw_values(x@, n as int),
                tolerance@,
                ceiling as nat,
                as_ints(residuals@),
            ),
        decreases ceiling + 1 - residuals@.len(),
    {
        let ghost seen = as_ints(residuals@);
        let complete = sweep(c, b, x, n);
        if !complete {
            return SolveReport { status: SolveStatus::Diverged, residuals };
        }
        let error = residual(c, b, x, n);
        residuals.push(error);
        assert(as_ints(residuals@) =~= seen.push(error as int));
        if error <= bound {
            return SolveReport { status: SolveStatus::Converged, residuals };
        }
        if residuals.len() > ceiling as usize {
            return SolveReport { status: SolveStatus::NotConverged, residuals };
        }
    }
}

} // verus!
