//! The composite ordering key of the search: number of steps taken, then
//! signed cumulative resource expenditure. Steps dominate because every turn
//! has a finite opportunity cost; expenditure breaks ties.

use vstd::prelude::*;

verus! {

#[derive(PartialEq, Eq, Structural, Clone, Copy, Debug)]
pub struct Cost(pub usize, pub i64);

/// The factor by which a step outweighs one unit of expenditure when the
/// key is flattened to a single scalar for the search frontier. It exceeds
/// any expenditure a bounded-lookahead path can accumulate, so the scalar
/// order agrees with the lexicographic one on such paths.
pub const STEP_WEIGHT: i64 = 0x1_0000_0000;

impl Cost {
    /// Lexicographic comparison: fewer steps first, then lower expenditure.
    pub open spec fn lt_spec(self, other: Cost) -> bool {
        self.0 < other.0 || (self.0 == other.0 && self.1 < other.1)
    }

    /// Whether this key orders strictly before `other`.
    pub fn lt(&self, other: &Cost) -> (r: bool)
        ensures
            r == self.lt_spec(*other),
    {
        self.0 < other.0 || (self.0 == other.0 && self.1 < other.1)
    }

    /// Componentwise sum of two keys.
    pub fn plus(&self, rhs: &Cost) -> (r: Cost)
        requires
            self.0 + rhs.0 <= usize::MAX,
            -0x4000_0000_0000_0000 <= self.1 + rhs.1 <= 0x4000_0000_0000_0000,
        ensures
            r.0 == self.0 + rhs.0,
            r.1 == self.1 + rhs.1,
    {
        Cost(self.0 + rhs.0, self.1 + rhs.1)
    }

    /// The key of an empty path.
    pub fn zero() -> (r: Cost)
        ensures
            r == (Cost(0, 0)),
    {
        Cost(0, 0)
    }

    pub fn is_zero(&self) -> (r: bool)
        ensures
            r == (self.0 == 0 && self.1 == 0),
    {
        self.0 == 0 && self.1 == 0
    }

    /// Flatten the key to one scalar whose order agrees with the
    /// lexicographic order whenever both expenditures are smaller in
    /// magnitude than half of `STEP_WEIGHT`.
    pub fn scalar(&self) -> (r: i64)
        requires
            self.0 <= 0x10000,
            -0x8000_0000 <= self.1 <= 0x8000_0000,
        ensures
            r == self.0 * STEP_WEIGHT + self.1,
    {
        (self.0 as i64) * STEP_WEIGHT + self.1
    }
}

/// On bounded keys the scalar order is exactly the lexicographic order.
pub proof fn lemma_scalar_orders_lexicographically(a: Cost, b: Cost)
    requires
        a.0 <= 0x10000,
        b.0 <= 0x10000,
        -0x8000_0000 < a.1 < 0x8000_0000,
        -0x8000_0000 < b.1 < 0x8000_0000,
    ensures
        (a.0 * STEP_WEIGHT + a.1 < b.0 * STEP_WEIGHT + b.1) == a.lt_spec(b),
{
    if a.0 < b.0 {
        assert(a.0 * STEP_WEIGHT + STEP_WEIGHT <= b.0 * STEP_WEIGHT) by (nonlinear_arith)
            requires a.0 + 1 <= b.0, STEP_WEIGHT > 0,
        ;
    } else if b.0 < a.0 {
        assert(b.0 * STEP_WEIGHT + STEP_WEIGHT <= a.0 * STEP_WEIGHT) by (nonlinear_arith)
            requires b.0 + 1 <= a.0, STEP_WEIGHT > 0,
        ;
    }
}

} // verus!
