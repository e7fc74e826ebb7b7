//! Committed and candidate actions. An [`Action`] is one already-decided
//! future step of a unit's plan; a [`MergedAction`] is a candidate extension
//! of a plan produced during search, carrying the cumulative cargo, cost and
//! cell-delta history needed to reconstruct the world-state changes the
//! candidate implies.

use vstd::prelude::*;
use crate::grid::{Position, Direction};
use crate::ids::ShipId;

verus! {

/// One step of a committed plan: a direction plus the contextual flags
/// recorded when the step was planned (expected resource-bonus eligibility,
/// expected hazard exposure, and whether this step converts into a depot).
#[derive(PartialEq, Eq, Structural, Clone, Copy, Debug)]
pub struct Action {
    pub ship_id: ShipId,
    pub dir: Direction,
    pub inspired: bool,
    pub risk: bool,
    pub dropoff: bool,
}

impl Action {
    pub fn new(ship_id: ShipId, dir: Direction, inspired: bool, risk: bool, dropoff: bool) -> (r:
        Action)
        ensures
            r == (Action { ship_id, dir, inspired, risk, dropoff }),
    {
        Action { ship_id, dir, inspired, risk, dropoff }
    }
}

/// Look up a recorded cell delta by position.
pub open spec fn mined_lookup(s: Seq<(Position, usize)>, p: Position) -> Option<usize>
    decreases s.len(),
{
    if s.len() == 0 {
        None
    } else if s.last().0 == p {
        Some(s.last().1)
    } else {
        mined_lookup(s.drop_last(), p)
    }
}

/// The mathematical value of a [`MergedAction`].
#[verifier::ext_equal]
pub ghost struct MergedModel {
    pub ship_id: ShipId,
    pub pos: Position,
    pub halite: usize,
    pub returned: usize,
    pub inspired: bool,
    pub risk: bool,
    pub mined: Seq<(Position, usize)>,
    pub cost: i64,
}

/// A candidate extension of one unit's plan: the implied position, cargo,
/// amount deposited so far, flags, accumulated search cost, and the cells
/// whose resource quantity this candidate's history has changed.
#[derive(Clone, Debug)]
pub struct MergedAction {
    pub ship_id: ShipId,
    pub pos: Position,
    pub halite: usize,
    pub returned: usize,
    pub inspired: bool,
    pub risk: bool,
    /// Cell deltas: for each recorded position, the quantity it now holds.
    /// Later entries override earlier ones.
    pub mined: Vec<(Position, usize)>,
    pub cost: i64,
}

impl View for MergedAction {
    type V = MergedModel;

    open spec fn view(&self) -> MergedModel {
        MergedModel {
            ship_id: self.ship_id,
            pos: self.pos,
            halite: self.halite,
            returned: self.returned,
            inspired: self.inspired,
            risk: self.risk,
            mined: self.mined@,
            cost: self.cost,
        }
    }
}

impl MergedAction {
    /// A field-for-field copy.
    pub fn duplicate(&self) -> (r: MergedAction)
        ensures
            r@ =~= self@,
    {
        let mut mined: Vec<(Position, usize)> = Vec::new();
        let mut i: usize = 0;
        while i < self.mined.len()
            invariant
                i <= self.mined@.len(),
                mined@ =~= self.mined@.take(i as int),
            decreases self.mined@.len() - i,
        {
            mined.push(self.mined[i]);
            i = i + 1;
        }
        proof {
            assert(self.mined@.take(self.mined@.len() as int) =~= self.mined@);
        }
        MergedAction {
            ship_id: self.ship_id,
            pos: self.pos,
            halite: self.halite,
            returned: self.returned,
            inspired: self.inspired,
            risk: self.risk,
            mined,
            cost: self.cost,
        }
    }

    /// The fresh candidate for a unit standing at `pos` with cargo `halite`.
    pub fn new(ship_id: ShipId, pos: Position, halite: usize) -> (r: MergedAction)
        ensures
            r.ship_id == ship_id,
            r.pos == pos,
            r.halite == halite,
            r.returned == 0,
            !r.inspired,
            !r.risk,
            r.mined@ =~= Seq::<(Position, usize)>::empty(),
            r.cost == 0,
    {
        MergedAction {
            ship_id,
            pos,
            halite,
            returned: 0,
            inspired: false,
            risk: false,
            mined: Vec::new(),
            cost: 0,
        }
    }

    /// The candidate used to test spawning a new unit on the home cell; it
    /// carries the reserved identifier.
    pub fn spawn(pos: Position) -> (r: MergedAction)
        ensures
            r.ship_id == (ShipId(usize::MAX)),
            r.pos == pos,
            r.halite == 0,
            r.returned == 0,
            !r.inspired,
            !r.risk,
            r.mined@ =~= Seq::<(Position, usize)>::empty(),
            r.cost == 0,
    {
        MergedAction {
            ship_id: ShipId(usize::MAX),
            pos,
            halite: 0,
            returned: 0,
            inspired: false,
            risk: false,
            mined: Vec::new(),
            cost: 0,
        }
    }

    /// Record that cell `p` now holds `hal`, overriding any earlier record.
    pub fn set_mined(&mut self, p: Position, hal: usize)
        ensures
            final(self).mined@ == old(self).mined@.push((p, hal)),
            (*final(self) == MergedAction { mined: final(self).mined, ..*old(self) }),
            mined_lookup(final(self).mined@, p) == Some(hal),
            forall|q: Position|
                q != p ==> mined_lookup(final(self).mined@, q) == mined_lookup(
                    old(self).mined@,
                    q,
                ),
    {
        self.mined.push((p, hal));
        proof {
            assert(self.mined@.drop_last() =~= old(self).mined@);
        }
    }

    /// The recorded quantity for cell `p`, if this candidate's history
    /// changed it.
    pub fn mined_get(&self, p: Position) -> (r: Option<usize>)
        ensures
            r == mined_lookup(self.mined@, p),
    {
        let mut i: usize = self.mined.len();
        proof {
            assert(self.mined@.take(i as int) =~= self.mined@);
        }
        while i > 0
            invariant
                i <= self.mined@.len(),
                mined_lookup(self.mined@, p) == mined_lookup(self.mined@.take(i as int), p),
            decreases i,
        {
            i = i - 1;
            let e = self.mined[i];
            proof {
                assert(self.mined@.take(i as int + 1).drop_last() =~= self.mined@.take(i as int));
                assert(self.mined@.take(i as int + 1).last() == self.mined@[i as int]);
            }
            if e.0.x == p.x && e.0.y == p.y {
                return Some(e.1);
            }
        }
        proof {
            assert(self.mined@.take(0) =~= Seq::<(Position, usize)>::empty());
        }
        None
    }
}

} // verus!
