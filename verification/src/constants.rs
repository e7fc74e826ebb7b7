//! The ruleset constants delivered once per game by the transport
//! collaborator. The resource-bonus multiplier is kept as an integer factor:
//! the yield of an eligible extraction is scaled by `1 + inspired_bonus_multiplier`.

use vstd::prelude::*;

verus! {

#[derive(Clone, Copy, Debug)]
pub struct Constants {
    /// Cargo capacity of one unit.
    pub max_halite: usize,
    /// A move from a cell costs `floor(cell / move_cost_ratio)`.
    pub move_cost_ratio: usize,
    /// A mining step extracts `ceil(cell / extract_ratio)`.
    pub extract_ratio: usize,
    /// Radius within which opposing units confer resource-bonus eligibility.
    pub inspiration_radius: usize,
    /// Number of opposing units within the radius needed for eligibility.
    pub inspiration_ship_count: usize,
    /// Extra whole multiples of the base yield granted on an eligible cell.
    pub inspired_bonus_multiplier: usize,
    /// Cost of spawning a new unit.
    pub ship_cost: usize,
    /// Cost of converting a unit into a depot.
    pub dropoff_cost: usize,
    /// Total number of turns in the game.
    pub max_turns: usize,
}

impl Constants {
    /// Machine-level sanity bounds: ratios are nonzero so the extraction and
    /// movement formulas divide, and the magnitudes are small enough that the
    /// engine's cost arithmetic cannot overflow.
    pub open spec fn wf(self) -> bool {
        &&& 1 <= self.move_cost_ratio <= 0x10000
        &&& 1 <= self.extract_ratio <= 0x10000
        &&& 1 <= self.max_halite <= 0x10000
        &&& self.inspired_bonus_multiplier <= 0x10
        &&& self.ship_cost <= 0x10000
        &&& self.dropoff_cost <= 0x10000
        &&& self.max_turns <= 0x10000
        &&& self.inspiration_radius <= 0x1000
    }

    /// Whether the given bounds hold; used by the edge of the system before
    /// handing a snapshot to the engine.
    pub fn check_wf(&self) -> (r: bool)
        ensures
            r == self.wf(),
    {
        1 <= self.move_cost_ratio && self.move_cost_ratio <= 0x10000
            && 1 <= self.extract_ratio && self.extract_ratio <= 0x10000
            && 1 <= self.max_halite && self.max_halite <= 0x10000
            && self.inspired_bonus_multiplier <= 0x10
            && self.ship_cost <= 0x10000
            && self.dropoff_cost <= 0x10000
            && self.max_turns <= 0x10000
            && self.inspiration_radius <= 0x1000
    }
}

} // verus!
