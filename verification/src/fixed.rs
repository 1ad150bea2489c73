//! Decimal fixed-point numbers.
//!
//! Every coefficient, constant and unknown of a linear system is held as a
//! signed count of billionths: the number `2.5` is the raw count
//! `2_500_000_000`. Sums and products of such counts are exact integers, so
//! the solver decides convergence without any rounding; the only rounding it
//! ever performs is the one division of each unknown's update.
use vstd::prelude::*;

verus! {

/// Raw units that make up the value one (nine decimal places).
pub const SCALE: i64 = 1_000_000_000;

/// Largest magnitude of a raw count; it stands for the value one billion.
pub const LIMIT: i64 = 1_000_000_000_000_000_000;

/// Whether a raw count lies within the representable range.
pub open spec fn in_range(raw: int) -> bool {
    -LIMIT <= raw <= LIMIT
}

/// The raw counts of the first `n` numbers of `v`.
pub open spec fn raw_values(v: Seq<Fixed>, n: int) -> Seq<int> {
    Seq::new(n as nat, |j: int| v[j]@)
}

/// A number with nine decimal places and a magnitude of at most one billion.
#[derive(Clone, Copy, Debug, PartialEq, Eq, Structural)]
pub struct Fixed {
    raw: i64,
}

impl View for Fixed {
    type V = int;

    /// The raw count of billionths.
    closed spec fn view(&self) -> int {
        self.raw as int
    }
}

impl Fixed {
    #[verifier::type_invariant]
    pub open spec fn bounded(self) -> bool {
        in_range(self@)
    }

    /// The number zero.
    pub fn zero() -> (r: Fixed)
        ensures
            r@ == 0,
    {
        Fixed { raw: 0 }
    }

    /// The number with the given raw count, if that count is in range.
    pub fn from_raw(raw: i64) -> (r: Option<Fixed>)
        ensures
            in_range(raw as int) ==> r is Some && r->0@ == raw,
            !in_range(raw as int) ==> r is None,
    {
        if -LIMIT <= raw && raw <= LIMIT {
            Some(Fixed { raw })
        } else {
            None
        }
    }

    /// The whole number `units`, if it is in range.
    pub fn from_int(units: i64) -> (r: Option<Fixed>)
        ensures
            in_range(units * SCALE) ==> r is Some && r->0@ == units * SCALE,
            !in_range(units * SCALE) ==> r is None,
    {
        if -SCALE <= units && units <= SCALE {
            Some(Fixed { raw: units * SCALE })
        } else {
            None
        }
    }

    /// The raw count of billionths.
    pub fn raw(self) -> (r: i64)
        ensures
            r == self@,
            in_range(r as int),
    {
        proof {
            use_type_invariant(&self);
        }
        self.raw
    }

    /// Whether the number is exactly zero.
    pub fn is_zero(self) -> (r: bool)
        ensures
            r == (self@ == 0),
    {
        self.raw == 0
    }

    /// A number from a raw count that is known to be in range.
    pub(crate) fn from_bounded(raw: i64) -> (r: Fixed)
        requires
            in_range(raw as int),
        ensures
            r@ == raw,
    {
        Fixed { raw }
    }
}

} // verus!
