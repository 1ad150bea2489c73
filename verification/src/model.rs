//! The mathematics of one solve, over exact integers.
//!
//! A system is a square grid `m` of raw coefficient counts, a sequence `b` of
//! raw constants and a sequence `x` of raw unknowns, all of the same
//! dimension. Products of two raw counts are kept exactly, in units of a
//! billionth of a billionth; residuals are measured in that unit too.
use vstd::prelude::*;
use crate::fixed::{in_range, LIMIT, SCALE};

verus! {

/// How a solve ended.
#[derive(Clone, Copy, Debug, PartialEq, Eq, Structural)]
pub enum SolveStatus {
    /// The residual error fell to the tolerance or below.
    Converged,
    /// The iteration ceiling was exceeded with the residual error still above
    /// the tolerance.
    NotConverged,
    /// An unknown left the representable range; the iteration was abandoned
    /// at that row.
    Diverged,
    /// A diagonal coefficient is zero; no iteration was made.
    InvalidMatrix,
}

/// The sum of `terms[j]` over the positions `j` below `upto`, leaving out
/// the position `skip`.
pub open spec fn sum_except(terms: Seq<int>, skip: int, upto: int) -> int
    decreases upto,
{
    if upto <= 0 {
        0
    } else {
        sum_except(terms, skip, upto - 1) + if upto - 1 == skip {
            0
        } else {
            terms[upto - 1]
        }
    }
}

/// The sum of all of `terms`.
pub open spec fn sum_all(terms: Seq<int>) -> int {
    sum_except(terms, -1, terms.len() as int)
}

/// The products of each coefficient of a row with its unknown.
pub open spec fn products(row: Seq<int>, x: Seq<int>) -> Seq<int> {
    Seq::new(row.len(), |j: int| row[j] * x[j])
}

pub open spec fn magnitude(v: int) -> int {
    if v < 0 {
        -v
    } else {
        v
    }
}

/// The quotient of `num` by `den`, to the nearest integer; a quotient that
/// lies halfway between two integers goes to the one farther from zero.
pub open spec fn round_div(num: int, den: int) -> int {
    let q = (2 * magnitude(num) + magnitude(den)) / (2 * magnitude(den));
    if (num < 0) != (den < 0) {
        -q
    } else {
        q
    }
}

/// What a row's equation leaves for its own unknown: the constant less the
/// products of the other coefficients with their unknowns.
pub open spec fn remainder(m: Seq<Seq<int>>, b: Seq<int>, x: Seq<int>, i: int) -> int {
    b[i] * SCALE - sum_except(products(m[i], x), i, x.len() as int)
}

/// The new value of unknown `i`: the row's remainder divided by its diagonal
/// coefficient.
pub open spec fn updated_value(m: Seq<Seq<int>>, b: Seq<int>, x: Seq<int>, i: int) -> int {
    round_div(remainder(m, b, x, i), m[i][i])
}

/// By how much the left side of equation `i` exceeds its constant.
pub open spec fn row_residual(m: Seq<Seq<int>>, b: Seq<int>, x: Seq<int>, i: int) -> int {
    sum_all(products(m[i], x)) - b[i] * SCALE
}

/// The magnitudes of the residuals of all rows.
pub open spec fn residual_magnitudes(m: Seq<Seq<int>>, b: Seq<int>, x: Seq<int>) -> Seq<int> {
    Seq::new(x.len(), |i: int| magnitude(row_residual(m, b, x, i)))
}

/// The residual error: the sum of the magnitudes of all rows' residuals.
pub open spec fn residual_error(m: Seq<Seq<int>>, b: Seq<int>, x: Seq<int>) -> int {
    sum_all(residual_magnitudes(m, b, x))
}

/// The unknowns after a sweep, and whether the sweep reached the last row.
pub struct Sweep {
    pub x: Seq<int>,
    pub complete: bool,
}

/// One sweep over the rows from `i` on, in increasing order. Each row's
/// unknown is replaced at once, so later rows use it. The sweep stops at the
/// first row whose new value would leave the representable range, and leaves
/// that row and those after it as they were.
pub open spec fn sweep_from(m: Seq<Seq<int>>, b: Seq<int>, x: Seq<int>, i: int) -> Sweep
    decreases x.len() - i,
    when i >= 0
{
    if i >= x.len() {
        Sweep { x, complete: true }
    } else if in_range(updated_value(m, b, x, i)) {
        sweep_from(m, b, x.update(i, updated_value(m, b, x, i)), i + 1)
    } else {
        Sweep { x, complete: false }
    }
}

/// How a solve ends: the status, the unknowns as the solver leaves them, and
/// the residual error after each completed sweep, in order.
pub struct Outcome {
    pub status: SolveStatus,
    pub x: Seq<int>,
    pub residuals: Seq<int>,
}

/// The iteration from unknowns `x`, after the sweeps whose residual errors
/// are `residuals`. It sweeps, measures the residual error, and stops when
/// that error is at most `tolerance` or when more than `ceiling` sweeps have
/// been made.
pub open spec fn iterate(
    m: Seq<Seq<int>>,
    b: Seq<int>,
    x: Seq<int>,
    tolerance: int,
    ceiling: nat,
    residuals: Seq<int>,
) -> Outcome
    decreases ceiling + 1 - residuals.len(),
{
    let swept = sweep_from(m, b, x, 0);
    if !swept.complete {
        Outcome { status: SolveStatus::Diverged, x: swept.x, residuals }
    } else {
        let error = residual_error(m, b, swept.x);
        let seen = residuals.push(error);
        if error <= tolerance * SCALE {
            Outcome { status: SolveStatus::Converged, x: swept.x, residuals: seen }
        } else if seen.len() > ceiling {
            Outcome { status: SolveStatus::NotConverged, x: swept.x, residuals: seen }
        } else {
            iterate(m, b, swept.x, tolerance, ceiling, seen)
        }
    }
}

/// Whether some diagonal coefficient of the rows below `upto` is zero.
pub open spec fn has_zero_diagonal(m: Seq<Seq<int>>, upto: int) -> bool {
    exists|i: int| 0 <= i < upto && #[trigger] m[i][i] == 0
}

/// A whole solve from the seed `x`. A system without equations is solved as
/// it stands; one with a zero on its diagonal is refused untouched.
pub open spec fn solve(
    m: Seq<Seq<int>>,
    b: Seq<int>,
    x: Seq<int>,
    tolerance: int,
    ceiling: nat,
) -> Outcome {
    if x.len() == 0 {
        Outcome { status: SolveStatus::Converged, x, residuals: Seq::empty() }
    } else if has_zero_diagonal(m, x.len() as int) {
        Outcome { status: SolveStatus::InvalidMatrix, x, residuals: Seq::empty() }
    } else {
        iterate(m, b, x, tolerance, ceiling, Seq::empty())
    }
}

/// Whether every element of `s` is a raw count in range.
pub open spec fn all_in_range(s: Seq<int>) -> bool {
    forall|i: int| 0 <= i < s.len() ==> in_range(#[trigger] s[i])
}

/// Largest magnitude of a product of two raw counts.
pub open spec fn product_bound() -> int {
    LIMIT * LIMIT
}

/// A product of two raw counts in range is at most `product_bound()` in
/// magnitude.
pub proof fn lemma_product_bound(a: int, b: int)
    requires
        in_range(a),
        in_range(b),
    ensures
        -product_bound() <= a * b <= product_bound(),
{
    assert(-(LIMIT * LIMIT) <= a * b <= LIMIT * LIMIT) by (nonlinear_arith)
        requires
            -LIMIT <= a <= LIMIT,
            -LIMIT <= b <= LIMIT,
    ;
}

/// A sum of terms that are each at most `bound` in magnitude is at most
/// `upto * bound` in magnitude.
pub proof fn lemma_sum_bound(terms: Seq<int>, skip: int, upto: int, bound: int)
    requires
        0 <= upto <= terms.len(),
        0 <= bound,
        forall|j: int| 0 <= j < upto ==> -bound <= #[trigger] terms[j] <= bound,
    ensures
        -upto * bound <= sum_except(terms, skip, upto) <= upto * bound,
    decreases upto,
{
    if upto > 0 {
        lemma_sum_bound(terms, skip, upto - 1, bound);
        assert(upto * bound == (upto - 1) * bound + bound) by (nonlinear_arith);
        assert(-upto * bound == -(upto - 1) * bound - bound) by (nonlinear_arith);
    }
}

/// Leaving a position out of a sum takes exactly its term away.
pub proof fn lemma_sum_restore(terms: Seq<int>, skip: int, upto: int)
    requires
        0 <= skip < upto <= terms.len(),
    ensures
        sum_except(terms, -1, upto) == sum_except(terms, skip, upto) + terms[skip],
    decreases upto,
{
    if upto - 1 > skip {
        lemma_sum_restore(terms, skip, upto - 1);
    } else {
        lemma_sum_skip_beyond(terms, skip, upto - 1);
    }
}

/// A position at or beyond the end of a sum is not in it.
pub proof fn lemma_sum_skip_beyond(terms: Seq<int>, skip: int, upto: int)
    requires
        upto <= skip,
    ensures
        sum_except(terms, skip, upto) == sum_except(terms, -1, upto),
    decreases upto,
{
    if upto > 0 {
        lemma_sum_skip_beyond(terms, skip, upto - 1);
    }
}

/// Sums of sequences that agree below `upto` are equal.
pub proof fn lemma_sum_agrees(s: Seq<int>, t: Seq<int>, skip: int, upto: int)
    requires
        forall|j: int| 0 <= j < upto && j != skip ==> s[j] == t[j],
    ensures
        sum_except(s, skip, upto) == sum_except(t, skip, upto),
    decreases upto,
{
    if upto > 0 {
        lemma_sum_agrees(s, t, skip, upto - 1);
    }
}

/// Replacing one term of a sum changes the sum by the difference.
pub proof fn lemma_sum_update(terms: Seq<int>, skip: int, upto: int, at: int, term: int)
    requires
        0 <= at < terms.len(),
        upto <= terms.len(),
    ensures
        sum_except(terms.update(at, term), skip, upto) == sum_except(terms, skip, upto) + (if at
            < upto && at != skip {
            term - terms[at]
        } else {
            0
        }),
    decreases upto,
{
    if upto > 0 {
        lemma_sum_update(terms, skip, upto - 1, at, term);
    }
}

} // verus!
