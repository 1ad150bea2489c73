//! What holds of every solve and of every dominance test.
use vstd::prelude::*;
use crate::dominance::diagonally_dominant;
use crate::fixed::{in_range, SCALE};
use crate::model::{
    all_in_range, has_zero_diagonal, iterate, lemma_sum_bound, lemma_sum_restore, magnitude,
    products, residual_error, residual_magnitudes, round_div, row_residual, solve,
    sum_except, sweep_from, updated_value, Outcome, SolveStatus, Sweep,
};
use crate::sparse::{coefficient, grid_of};
use crate::store::is_square;
use crate::system::LS;

verus! {

/// A sweep never changes the number of unknowns.
pub proof fn lemma_sweep_keeps_length(m: Seq<Seq<int>>, b: Seq<int>, x: Seq<int>, i: int)
    requires
        0 <= i,
    ensures
        sweep_from(m, b, x, i).x.len() == x.len(),
    decreases x.len() - i,
{
    if i < x.len() && in_range(updated_value(m, b, x, i)) {
        lemma_sweep_keeps_length(m, b, x.update(i, updated_value(m, b, x, i)), i + 1);
    }
}

/// No term of a sum of terms that are not negative exceeds the sum.
pub proof fn lemma_term_within_sum(terms: Seq<int>, upto: int, i: int)
    requires
        0 <= i < upto <= terms.len(),
        forall|j: int| 0 <= j < upto ==> 0 <= #[trigger] terms[j],
    ensures
        terms[i] <= sum_except(terms, -1, upto),
        0 <= sum_except(terms, -1, upto),
    decreases upto,
{
    if upto - 1 > i {
        lemma_term_within_sum(terms, upto - 1, i);
    } else {
        lemma_sum_not_negative(terms, upto - 1);
    }
}

/// A sum of terms that are not negative is not negative.
pub proof fn lemma_sum_not_negative(terms: Seq<int>, upto: int)
    requires
        upto <= terms.len(),
        forall|j: int| 0 <= j < upto ==> 0 <= #[trigger] terms[j],
    ensures
        0 <= sum_except(terms, -1, upto),
    decreases upto,
{
    if upto > 0 {
        lemma_sum_not_negative(terms, upto - 1);
    }
}

/// How an iteration can end, whatever the system: the number of unknowns
/// stays; at most `ceiling + 1` sweeps are completed; a converged iteration
/// ends with a residual error within the tolerance; one that did not
/// converge completed exactly `ceiling + 1` sweeps and ends with a residual
/// error above the tolerance; and no iteration reports an invalid matrix.
pub proof fn lemma_iteration_ends(
    m: Seq<Seq<int>>,
    b: Seq<int>,
    x: Seq<int>,
    tolerance: int,
    ceiling: nat,
    residuals: Seq<int>,
)
    requires
        residuals.len() <= ceiling,
    ensures
        ({
            let out = iterate(m, b, x, tolerance, ceiling, residuals);
            &&& out.x.len() == x.len()
            &&& residuals.len() <= out.residuals.len() <= ceiling + 1
            &&& out.status != SolveStatus::InvalidMatrix
            &&& out.status == SolveStatus::Converged ==> {
                &&& out.residuals.len() > residuals.len()
                &&& out.residuals.last() == residual_error(m, b, out.x)
                &&& residual_error(m, b, out.x) <= tolerance * SCALE
            }
            &&& out.status == SolveStatus::NotConverged ==> {
                &&& out.residuals.len() == ceiling + 1
                &&& out.residuals.last() == residual_error(m, b, out.x)
                &&& residual_error(m, b, out.x) > tolerance * SCALE
            }
        }),
    decreases ceiling + 1 - residuals.len(),
{
    let swept = sweep_from(m, b, x, 0);
    lemma_sweep_keeps_length(m, b, x, 0);
    if swept.complete {
        let error = residual_error(m, b, swept.x);
        let seen = residuals.push(error);
        if error <= tolerance * SCALE {
        } else if seen.len() > ceiling {
        } else {
            lemma_iteration_ends(m, b, swept.x, tolerance, ceiling, seen);
        }
    }
}

/// When a solve reports convergence, the residual of every equation is
/// within the tolerance, and so is their sum, the residual error.
pub proof fn lemma_converged_within_tolerance(
    m: Seq<Seq<int>>,
    b: Seq<int>,
    x: Seq<int>,
    tolerance: int,
    ceiling: nat,
)
    requires
        solve(m, b, x, tolerance, ceiling).status == SolveStatus::Converged,
    ensures
        ({
            let out = solve(m, b, x, tolerance, ceiling);
            &&& out.x.len() == x.len()
            &&& x.len() > 0 ==> residual_error(m, b, out.x) <= tolerance * SCALE
            &&& forall|i: int|
                0 <= i < x.len() ==> magnitude(#[trigger] row_residual(m, b, out.x, i)) <= tolerance
                    * SCALE
        }),
{
    let out = solve(m, b, x, tolerance, ceiling);
    if x.len() > 0 {
        lemma_iteration_ends(m, b, x, tolerance, ceiling, Seq::empty());
        let sizes = residual_magnitudes(m, b, out.x);
        assert forall|i: int| 0 <= i < x.len() implies magnitude(
            #[trigger] row_residual(m, b, out.x, i),
        ) <= tolerance * SCALE by {
            lemma_term_within_sum(sizes, sizes.len() as int, i);
        }
    }
}

/// A solve that did not converge made exactly one sweep more than the
/// ceiling, and one that found the matrix invalid or the system empty made
/// none and left the unknowns as they were.
pub proof fn lemma_status_tells_sweeps(
    m: Seq<Seq<int>>,
    b: Seq<int>,
    x: Seq<int>,
    tolerance: int,
    ceiling: nat,
)
    ensures
        ({
            let out = solve(m, b, x, tolerance, ceiling);
            &&& out.x.len() == x.len()
            &&& out.residuals.len() <= ceiling + 1
            &&& out.status == SolveStatus::NotConverged ==> out.residuals.len() == ceiling + 1
            &&& out.status == SolveStatus::InvalidMatrix <==> x.len() > 0 && has_zero_diagonal(
                m,
                x.len() as int,
            )
            &&& out.status == SolveStatus::InvalidMatrix || x.len() == 0 ==> out.x == x
                && out.residuals.len() == 0
        }),
{
    if x.len() > 0 && !has_zero_diagonal(m, x.len() as int) {
        lemma_iteration_ends(m, b, x, tolerance, ceiling, Seq::empty());
    }
}

/// Dividing a multiple of `d` by `d` gives the multiplier exactly.
pub proof fn lemma_round_div_exact(d: int, v: int)
    requires
        d != 0,
    ensures
        round_div(d * v, d) == v,
{
    let a = magnitude(v);
    let e = magnitude(d);
    assert(magnitude(d * v) == e * a) by (nonlinear_arith)
        requires
            a == magnitude(v),
            e == magnitude(d),
    ;
    assert((2 * (e * a) + e) / (2 * e) == a) by (nonlinear_arith)
        requires
            e > 0,
            a >= 0,
    ;
    if v != 0 {
        assert((d * v < 0) == ((d < 0) != (v < 0))) by (nonlinear_arith)
            requires
                d != 0,
                v != 0,
        ;
    }
}

/// Unknowns that satisfy every equation exactly are left as they are by a
/// sweep.
pub proof fn lemma_exact_solution_is_fixed(m: Seq<Seq<int>>, b: Seq<int>, x: Seq<int>, i: int)
    requires
        is_square(m, x.len() as int),
        b.len() == x.len(),
        all_in_range(x),
        !has_zero_diagonal(m, x.len() as int),
        forall|k: int| 0 <= k < x.len() ==> #[trigger] row_residual(m, b, x, k) == 0,
        0 <= i <= x.len(),
    ensures
        sweep_from(m, b, x, i) == (Sweep { x, complete: true }),
    decreases x.len() - i,
{
    if i < x.len() {
        let n = x.len() as int;
        let p = products(m[i], x);
        assert(row_residual(m, b, x, i) == 0);
        lemma_sum_restore(p, i, n);
        lemma_round_div_exact(m[i][i], x[i]);
        assert(x.update(i, x[i]) =~= x);
        lemma_exact_solution_is_fixed(m, b, x, i + 1);
    }
}

/// A solve seeded with unknowns that satisfy every equation exactly
/// converges in one sweep, with a residual error of zero, and leaves the
/// unknowns as they are.
pub proof fn lemma_solving_again_changes_nothing(
    m: Seq<Seq<int>>,
    b: Seq<int>,
    x: Seq<int>,
    tolerance: int,
    ceiling: nat,
)
    requires
        x.len() > 0,
        is_square(m, x.len() as int),
        b.len() == x.len(),
        all_in_range(x),
        !has_zero_diagonal(m, x.len() as int),
        forall|k: int| 0 <= k < x.len() ==> #[trigger] row_residual(m, b, x, k) == 0,
        tolerance >= 0,
    ensures
        solve(m, b, x, tolerance, ceiling) == (Outcome {
            status: SolveStatus::Converged,
            x,
            residuals: seq![0int],
        }),
{
    lemma_exact_solution_is_fixed(m, b, x, 0);
    let sizes = residual_magnitudes(m, b, x);
    lemma_sum_bound(sizes, -1, sizes.len() as int, 0);
}

/// A system whose coordinate store holds the same coefficients as its dense
/// store, within the dimension, is solved alike from either: the same
/// status, the same unknowns and the same residual errors, sweep by sweep.
pub proof fn lemma_dense_and_sparse_solve_alike(system: LS)
    requires
        forall|i: int, j: int|
            0 <= i < system.dimension() && 0 <= j < system.dimension() ==> system.dense().entry(
                i,
                j,
            ) == coefficient(system.coordinates()@, i, j),
    ensures
        system.dense_outcome() == system.sparse_outcome(),
        diagonally_dominant(system.dense().grid(system.dimension() as int)) == diagonally_dominant(
            grid_of(system.coordinates()@, system.dimension() as int),
        ),
{
    let n = system.dimension() as int;
    assert(system.dense().grid(n) =~~= grid_of(system.coordinates()@, n));
}

/// The dominance test reads the coefficients within the dimension and
/// nothing else: two systems that agree there get the same verdict.
pub proof fn lemma_verdict_depends_on_coefficients(one: LS, other: LS)
    requires
        one.dimension() == other.dimension(),
        forall|i: int, j: int|
            0 <= i < one.dimension() && 0 <= j < one.dimension() ==> one.dense().entry(i, j)
                == other.dense().entry(i, j),
    ensures
        diagonally_dominant(one.dense().grid(one.dimension() as int)) == diagonally_dominant(
            other.dense().grid(other.dimension() as int),
        ),
{
    let n = one.dimension() as int;
    assert(one.dense().grid(n) =~~= other.dense().grid(n));
}

} // verus!
