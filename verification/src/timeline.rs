//! The rolling timeline: an append-only, lazily-extended sequence of
//! world states, one per future turn offset, built each turn by replaying
//! the committed plans against a fresh snapshot. A plan step that is no
//! longer legal poisons the plan from that point; the unit rejoins the pool
//! of units needing a plan. The timeline also carries the per-unit depot
//! targets computed by the assignment step, the pool of unplanned units,
//! and the record of which cells committed plans already mine.

use vstd::prelude::*;
use std::collections::VecDeque;
use crate::action::{Action, MergedAction, MergedModel};
use crate::assign::{sig, richness_at, solve_assignment};
use crate::constants::Constants;
use crate::game::{Game, Command, pos_on_board, lemma_cell_index_in_range, lemma_pos_of_index};
use crate::grid::{Position, Direction};
use crate::ids::ShipId;
use crate::navi::Navi;
use crate::plan::PlanBook;
use crate::state::{State, StateModel, copy_vec, fold_step, lemma_fold_step_frame};

verus! {

/// How many turns ahead a search may look.
pub const MAX_LOOKAHEAD: usize = 30;

/// The shorter lookahead used when testing whether a spawned unit pays off.
pub const MIN_LOOKAHEAD: usize = 20;

/// Bounds on where a new depot may be sited, relative to existing sites.
pub const MIN_DROPOFF_DIST: usize = 16;

pub const MAX_DROPOFF_DIST: usize = 22;

/// A committed plan is replayed in full only this many turns ahead; longer
/// plans continue only if they end in a depot conversion or are nearly done.
pub const PATH_TIMEOUT: usize = 16;

/// How much headroom above the cargo capacity counts as a full load.
pub const TARGET_DELTA: usize = 70;

/// Contention discount: each additional unit already sent toward a depot
/// counts as this many extra steps of distance.
pub const SHIP_DIST_RATIO: usize = 4;

/// One new depot is considered per this many units.
pub const SHIP_DROPOFF_RATIO: usize = 15;

/// The distance at which a depot's score has decayed to half.
pub const SCALE_FACTOR: usize = 80;

pub struct Timeline {
    /// One predicted state per future turn offset.
    pub timeline: Vec<State>,
    /// Units needing a plan, each with the turn offset it plans from.
    pub unpathed: Vec<(MergedAction, usize)>,
    /// For each cell a committed plan mines, the latest offset it is mined.
    pub mined: Vec<(Position, usize)>,
    /// The depot target (cell, earliest arrival offset) assigned per unit.
    pub target_dropoffs: Vec<(ShipId, (Position, usize))>,
    /// The candidate used to test spawning on the home cell.
    pub spawn_action: MergedAction,
    pub constants: Constants,
    /// The local collision arbiter for this turn.
    pub nav: Navi,
    /// The site chosen for a new depot, if any is worthwhile.
    pub prime: Option<Position>,
    /// Resource reserved against planned construction.
    pub save: usize,
}

impl Timeline {
    pub open spec fn board_w(self) -> int {
        self.timeline@[0].width as int
    }

    pub open spec fn board_h(self) -> int {
        self.timeline@[0].height as int
    }

    pub open spec fn wf(self) -> bool {
        &&& 1 <= self.timeline@.len() <= 0x28000
        &&& forall|i: int|
            0 <= i < self.timeline@.len() ==> (#[trigger] self.timeline@[i])@.wf()
        &&& forall|i: int|
            0 <= i < self.timeline@.len() ==> (#[trigger] self.timeline@[i]).width
                == self.timeline@[0].width && self.timeline@[i].height
                == self.timeline@[0].height && self.timeline@[i].constants
                == self.timeline@[0].constants && self.timeline@[i].start
                == self.timeline@[0].start
        &&& forall|i: int|
            0 <= i < self.timeline@.len() ==> (#[trigger] self.timeline@[i]).turn
                == self.timeline@[0].turn + i
        &&& self.timeline@[0].turn <= 0x10000
        &&& self.timeline@[0].turn + self.timeline@.len() <= 0x38000
        &&& self.constants == self.timeline@[0].constants
        &&& self.nav.wf()
        &&& self.nav.width == self.timeline@[0].width
        &&& self.nav.height == self.timeline@[0].height
        &&& forall|k: int|
            0 <= k < self.unpathed@.len() ==> self.timeline@[0]@.merged_wf(
                (#[trigger] self.unpathed@[k]).0@,
            ) && self.unpathed@[k].1 <= 0x1000 && self.unpathed@[k].0@.cost == 0
                && self.unpathed@[k].0@.returned == 0 && self.unpathed@[k].0@.mined.len() == 0
        &&& forall|k: int|
            0 <= k < self.mined@.len() ==> pos_on_board(
                (#[trigger] self.mined@[k]).0,
                self.board_w(),
                self.board_h(),
            )
        &&& self.timeline@[0]@.merged_wf(self.spawn_action@)
        &&& self.spawn_action@.cost == 0
        &&& self.spawn_action@.returned == 0
        &&& self.spawn_action@.mined.len() == 0
        &&& (self.prime matches Some(p) ==> pos_on_board(p, self.board_w(), self.board_h()))
        &&& forall|k: int|
            0 <= k < self.target_dropoffs@.len() ==> pos_on_board(
                (#[trigger] self.target_dropoffs@[k]).1.0,
                self.board_w(),
                self.board_h(),
            ) && self.target_dropoffs@[k].1.1 <= 0x1000
    }

    /// Extend the timeline with turn-advanced states until offset `t` is
    /// present. Existing slots are untouched; each new slot is the advance
    /// of its predecessor.
    #[verifier::rlimit(100)]
    pub fn extend_to(&mut self, t: usize)
        requires
            old(self).wf(),
            t <= 0x1000,
        ensures
            final(self).wf(),
            final(self).timeline@.len() > t,
            final(self).timeline@.len() >= old(self).timeline@.len(),
            forall|i: int|
                0 <= i < old(self).timeline@.len() ==> #[trigger] final(self).timeline@[i] == old(
                    self,
                ).timeline@[i],
            forall|i: int|
                old(self).timeline@.len() <= i < final(self).timeline@.len()
                    ==> (#[trigger] final(self).timeline@[i])@ =~= final(self).timeline@[i - 1]@.spec_advance(),
            (*final(self) == Timeline { timeline: final(self).timeline, ..*old(self) }),
    {
        while t >= self.timeline.len()
            invariant
                self.wf(),
                t <= 0x1000,
                1 <= old(self).timeline@.len(),
                self.timeline@.len() >= old(self).timeline@.len(),
                forall|i: int|
                    0 <= i < old(self).timeline@.len() ==> #[trigger] self.timeline@[i] == old(
                        self,
                    ).timeline@[i],
                forall|i: int|
                    old(self).timeline@.len() <= i < self.timeline@.len()
                        ==> (#[trigger] self.timeline@[i])@ =~= self.timeline@[i - 1]@.spec_advance(),
                (*self == Timeline { timeline: self.timeline, ..*old(self) }),
            decreases t - self.timeline@.len() + 1,
        {
            let n = self.timeline.len();
            let ghost pre = self.timeline@;
            let next = {
                let last = &self.timeline[n - 1];
                proof {
                    assert(self.timeline@[n - 1].turn <= self.timeline@[0].turn + n);
                }
                last.next()
            };
            proof {
                assert forall|i: int|
                    old(self).timeline@.len() <= i < pre.len() implies (#[trigger] pre[i])@ =~= pre[
                    i - 1
                ]@.spec_advance() by {
                    assert((self.timeline@[i])@ =~= (self.timeline@[i - 1])@.spec_advance());
                }
            }
            self.timeline.push(next);
            proof {
                assert(next@ =~= pre[n - 1]@.spec_advance());
                assert forall|i: int|
                    old(self).timeline@.len() <= i < self.timeline@.len() implies (
                #[trigger] self.timeline@[i])@ =~= self.timeline@[i - 1]@.spec_advance() by {
                    if i < n {
                        assert(self.timeline@[i] == pre[i]);
                        assert(self.timeline@[i - 1] == pre[i - 1]);
                        assert(pre[i]@ =~= pre[i - 1]@.spec_advance());
                    } else {
                        assert(self.timeline@[i] == next);
                        assert(self.timeline@[i - 1] == pre[n - 1]);
                    }
                }
            }
        }
    }

    /// The state at turn offset `t`, extending the timeline as needed.
    pub fn state(&mut self, t: usize) -> (r: &State)
        requires
            old(self).wf(),
            t <= 0x1000,
        ensures
            final(self).wf(),
            final(self).timeline@.len() > t,
            *r == final(self).timeline@[t as int],
            forall|i: int|
                0 <= i < old(self).timeline@.len() ==> #[trigger] final(self).timeline@[i] == old(
                    self,
                ).timeline@[i],
            (*final(self) == Timeline { timeline: final(self).timeline, ..*old(self) }),
    {
        self.extend_to(t);
        &self.timeline[t]
    }
}

impl Timeline {
    /// Build the timeline for a new turn: prune dead plans, seed turn zero
    /// from the snapshot, replay every committed plan turn by turn (an
    /// action is applied only after `can_apply` accepts it; anything else
    /// poisons the plan at that offset), append a blank terminal state,
    /// truncate poisoned plans, collect the units that need a plan, score
    /// depot sites, and assign every unit a depot target by maximum-weight
    /// matching.
    pub fn from(game: &Game, crashed: Vec<Position>, paths: &mut PlanBook) -> (r: Timeline)
        requires
            game.wf(),
            old(paths).wf(),
        ensures
            r.wf(),
            final(paths).wf(),
            r.nav.requests_marked(),
            r.timeline@[0].turn == game.turn_number,
            r.timeline@[0].width == game.width,
            r.timeline@[0].height == game.height,
            r.constants == game.constants,
            // The last slot is the synthetic terminal state: no units, no
            // occupancy, a harmless value for reads past all commitments.
            r.timeline@.len() >= 2,
            r.timeline@.last()@.ships.len() == 0,
            forall|i: int|
                0 <= i < r.timeline@.last()@.taken.len() ==> (
                #[trigger] r.timeline@.last()@.taken[i]) is None,
    {
        let me_ref = game.me();
        let me_shipyard = me_ref.shipyard;
        proof {
            let w = choose|w: int| 0 <= w < game.players@.len() && game.players@[w] == *me_ref;
            assert(pos_on_board(
                game.players@[w].shipyard,
                game.width as int,
                game.height as int,
            ));
        }
        let ship_ids: Vec<ShipId> = copy_vec(&game.me().ship_ids);
        let num_ships = if ship_ids.len() <= 0x1000 {
            ship_ids.len()
        } else {
            0x1000
        };

        // Prune crashed units' and completed plans.
        paths.retain_live(&ship_ids);

        let mut nav = Navi::new(game.width, game.height);
        nav.update_frame(game);

        // Seed turn zero with every unit that has an in-flight plan.
        let mut state0 = State::from(game);
        let mut pi: usize = 0;
        while pi < paths.plans.len()
            invariant
                game.wf(),
                state0@.wf(),
                state0.width == game.width,
                state0.height == game.height,
                state0.turn == game.turn_number,
                state0.start == game.turn_number,
                state0.constants == game.constants,
                pi <= paths.plans@.len(),
            decreases paths.plans@.len() - pi,
        {
            let id = paths.plans[pi].0;
            match game.ship_by_id(id) {
                Some(ship) => {
                    if !state0.contains_ship(ship.id) && state0.ships.len() < 0x1000 {
                        state0.add_ship(ship);
                    }
                },
                None => {},
            }
            pi = pi + 1;
        }

        // Transform the plans into the set of actions at each future step.
        let mut actions: Vec<Vec<Action>> = Vec::new();
        let mut pi: usize = 0;
        while pi < paths.plans.len()
            invariant
                pi <= paths.plans@.len(),
                actions@.len() <= 0x8000,
            decreases paths.plans@.len() - pi,
        {
            let plan_len = paths.plans[pi].1.len();
            let lim = if plan_len <= 0x8000 {
                plan_len
            } else {
                0x8000
            };
            let mut i: usize = 0;
            while i < lim
                invariant
                    pi < paths.plans@.len(),
                    plan_len == paths.plans@[pi as int].1@.len(),
                    lim <= plan_len,
                    lim <= 0x8000,
                    i <= lim,
                    actions@.len() <= 0x8000,
                    actions@.len() >= i,
                decreases lim - i,
            {
                if i >= actions.len() {
                    actions.push(Vec::new());
                }
                let a = {
                    let p = &paths.plans[pi].1;
                    p[i]
                };
                let row = &mut actions[i];
                row.push(a);
                i = i + 1;
            }
            pi = pi + 1;
        }

        // Poison plans whose unit stands near a crash site.
        let mut poisoned: Vec<(ShipId, usize)> = Vec::new();
        let mut pi: usize = 0;
        while pi < paths.plans.len()
            invariant
                game.wf(),
                state0@.wf(),
                state0.width == game.width,
                state0.height == game.height,
                pi <= paths.plans@.len(),
            decreases paths.plans@.len() - pi,
        {
            let id = paths.plans[pi].0;
            if state0.contains_ship(id) {
                let pos = state0.ship(id).0;
                let mut c: usize = 0;
                while c < crashed.len()
                    invariant
                        game.wf(),
                        state0@.wf(),
                        state0.width == game.width,
                        state0.height == game.height,
                        c <= crashed@.len(),
                    decreases crashed@.len() - c,
                {
                    if state0.calculate_distance(pos, crashed[c]) <= 6 {
                        if !poison_contains(&poisoned, id) {
                            poisoned.push((id, 0));
                        }
                    }
                    c = c + 1;
                }
            }
            pi = pi + 1;
        }

        // Replay the committed actions turn by turn.
        let mut timeline_vec: Vec<State> = Vec::new();
        timeline_vec.push(state0);
        let mut mined: Vec<(Position, usize)> = Vec::new();
        let mut building: Vec<Position> = Vec::new();
        let mut save: usize = 0;
        let mut seen_last: Vec<ShipId> = Vec::new();
        let mut rm_next: Vec<ShipId> = Vec::new();
        let mut i: usize = 0;
        while i < actions.len()
            invariant
                game.wf(),
                paths.wf(),
                actions@.len() <= 0x8000,
                i <= actions@.len(),
                timeline_vec@.len() == i + 1,
                forall|j: int|
                    0 <= j < timeline_vec@.len() ==> (#[trigger] timeline_vec@[j])@.wf(),
                forall|j: int|
                    0 <= j < timeline_vec@.len() ==> (#[trigger] timeline_vec@[j]).width
                        == game.width && timeline_vec@[j].height == game.height && timeline_vec@[
                        j
                    ].constants == game.constants && timeline_vec@[j].start == game.turn_number
                        && timeline_vec@[j].turn == game.turn_number + j,
                forall|k: int|
                    0 <= k < mined@.len() ==> pos_on_board(
                        (#[trigger] mined@[k]).0,
                        game.width as int,
                        game.height as int,
                    ),
                forall|k: int|
                    0 <= k < building@.len() ==> pos_on_board(
                        (#[trigger] building@[k]),
                        game.width as int,
                        game.height as int,
                    ),
            decreases actions@.len() - i,
        {
            let mut state = {
                let prev = &timeline_vec[i];
                proof {
                    assert(prev.turn < 0x40000);
                }
                prev.next()
            };
            let mut r: usize = 0;
            while r < rm_next.len()
                invariant
                    game.wf(),
                    state@.wf(),
                    state.width == game.width,
                    state.height == game.height,
                    state.constants == game.constants,
                    state.start == game.turn_number,
                    state.turn == game.turn_number + i + 1,
                    r <= rm_next@.len(),
                decreases rm_next@.len() - r,
            {
                let id = rm_next[r];
                if state.contains_ship(id) {
                    state.rm_ship(id);
                }
                r = r + 1;
            }
            rm_next = Vec::new();
            // Gate: an action replays only if its plan is not poisoned and
            // is within the replay horizon, ends in a conversion, or is
            // nearly complete; everything else poisons its plan here.
            let mut gated: Vec<Action> = Vec::new();
            let step_len = actions[i].len();
            let mut a: usize = 0;
            while a < step_len
                invariant
                    paths.wf(),
                    i < actions@.len(),
                    step_len == actions@[i as int]@.len(),
                    a <= step_len,
                decreases step_len - a,
            {
                let action = {
                    let row = &actions[i];
                    row[a]
                };
                if !poison_contains(&poisoned, action.ship_id) {
                    let mut gate = i < PATH_TIMEOUT;
                    match paths.index_of(action.ship_id) {
                        Some(pidx) => {
                            let plan_len = paths.plans[pidx].1.len();
                            if plan_len > 0 {
                                let last_action = {
                                    let p = &paths.plans[pidx].1;
                                    p[plan_len - 1]
                                };
                                if last_action.dropoff {
                                    gate = true;
                                }
                            }
                            if plan_len <= PATH_TIMEOUT + PATH_TIMEOUT / 2 {
                                gate = true;
                            }
                        },
                        None => {},
                    }
                    if gate {
                        gated.push(action);
                    } else {
                        poisoned.push((action.ship_id, i));
                    }
                }
                a = a + 1;
            }
            // Replay the gated actions: the resulting state is exactly the
            // fold of the legality-checked applications, per `fold_step`.
            let ghost pre_state = state@;
            let flags = state.replay_turn(&gated);
            proof {
                lemma_fold_step_frame(pre_state, gated@);
            }
            let mut seen: Vec<ShipId> = Vec::new();
            let mut a: usize = 0;
            while a < flags.len()
                invariant
                    game.wf(),
                    flags@.len() == gated@.len(),
                    a <= flags@.len(),
                    forall|k: int|
                        0 <= k < flags@.len() && (#[trigger] flags@[k]).0 ==> pos_on_board(
                            flags@[k].1,
                            game.width as int,
                            game.height as int,
                        ),
                    forall|k: int|
                        0 <= k < mined@.len() ==> pos_on_board(
                            (#[trigger] mined@[k]).0,
                            game.width as int,
                            game.height as int,
                        ),
                    forall|k: int|
                        0 <= k < building@.len() ==> pos_on_board(
                            (#[trigger] building@[k]),
                            game.width as int,
                            game.height as int,
                        ),
                decreases flags@.len() - a,
            {
                let (ok, pos) = flags[a];
                let action = gated[a];
                if ok {
                    seen.push(action.ship_id);
                    if action.dropoff {
                        if building.len() < 0x1000 {
                            building.push(pos);
                        }
                    } else if matches!(action.dir, Direction::Still) {
                        mined_upsert(&mut mined, pos, i);
                    }
                } else {
                    if !poison_contains(&poisoned, action.ship_id) {
                        poisoned.push((action.ship_id, i));
                    }
                }
                a = a + 1;
            }
            let mut sl: usize = 0;
            while sl < seen_last.len()
                invariant
                    sl <= seen_last@.len(),
                decreases seen_last@.len() - sl,
            {
                let id = seen_last[sl];
                if !id_contains(&seen, id) {
                    rm_next.push(id);
                }
                sl = sl + 1;
            }
            seen_last = seen;
            timeline_vec.push(state);
            i = i + 1;
        }

        // Register every live unit in turn zero.
        let mut s: usize = 0;
        while s < ship_ids.len()
            invariant
                game.wf(),
                1 <= timeline_vec@.len() <= 0x8001,
                forall|j: int|
                    0 <= j < timeline_vec@.len() ==> (#[trigger] timeline_vec@[j])@.wf(),
                forall|j: int|
                    0 <= j < timeline_vec@.len() ==> (#[trigger] timeline_vec@[j]).width
                        == game.width && timeline_vec@[j].height == game.height && timeline_vec@[
                        j
                    ].constants == game.constants && timeline_vec@[j].start == game.turn_number
                        && timeline_vec@[j].turn == game.turn_number + j,
                s <= ship_ids@.len(),
            decreases ship_ids@.len() - s,
        {
            match game.ship_by_id(ship_ids[s]) {
                Some(ship) => {
                    let st = &mut timeline_vec[0];
                    if !st.contains_ship(ship.id) && st.ships.len() < 0x1000 {
                        st.add_ship(ship);
                    }
                },
                None => {},
            }
            s = s + 1;
        }

        // Append the blank terminal state.
        let nlast = timeline_vec.len();
        let mut term = {
            let last = &timeline_vec[nlast - 1];
            proof {
                assert(last.turn < 0x40000);
            }
            last.next()
        };
        term.blank_units();
        timeline_vec.push(term);
        proof {
            assert(timeline_vec@.last()@.ships.len() == 0);
            assert(forall|i: int|
                0 <= i < timeline_vec@.last()@.taken.len() ==> (
                #[trigger] timeline_vec@.last()@.taken[i]) is None);
        }

        // Truncate poisoned plans at their poison offset.
        let mut p: usize = 0;
        while p < poisoned.len()
            invariant
                paths.wf(),
                p <= poisoned@.len(),
            decreases poisoned@.len() - p,
        {
            let (id, t) = poisoned[p];
            if t == 0 {
                paths.remove_plan(id);
            } else {
                paths.truncate_plan(id, t);
            }
            p = p + 1;
        }

        // Collect the units that need a plan.
        let mut unpathed: Vec<(MergedAction, usize)> = Vec::new();
        let mut start_bucket: usize = 0;
        while start_bucket <= PATH_TIMEOUT / 2
            invariant
                game.wf(),
                paths.wf(),
                timeline_vec@.len() >= 1,
                forall|j: int|
                    0 <= j < timeline_vec@.len() ==> (#[trigger] timeline_vec@[j])@.wf(),
                forall|j: int|
                    0 <= j < timeline_vec@.len() ==> (#[trigger] timeline_vec@[j]).width
                        == game.width && timeline_vec@[j].height == game.height && timeline_vec@[
                        j
                    ].constants == game.constants,
                start_bucket <= PATH_TIMEOUT / 2 + 1,
                forall|k: int|
                    0 <= k < unpathed@.len() ==> timeline_vec@[0]@.merged_wf(
                        (#[trigger] unpathed@[k]).0@,
                    ) && unpathed@[k].1 <= 0x1000 && unpathed@[k].0@.cost == 0 && unpathed@[
                        k
                    ].0@.returned == 0 && unpathed@[k].0@.mined.len() == 0,
            decreases PATH_TIMEOUT / 2 + 1 - start_bucket,
        {
            let mut s: usize = 0;
            while s < ship_ids.len()
                invariant
                    game.wf(),
                    paths.wf(),
                    timeline_vec@.len() >= 1,
                    forall|j: int|
                        0 <= j < timeline_vec@.len() ==> (#[trigger] timeline_vec@[j])@.wf(),
                    forall|j: int|
                        0 <= j < timeline_vec@.len() ==> (#[trigger] timeline_vec@[j]).width
                            == game.width && timeline_vec@[j].height == game.height
                            && timeline_vec@[j].constants == game.constants,
                    start_bucket <= PATH_TIMEOUT / 2,
                    s <= ship_ids@.len(),
                    forall|k: int|
                        0 <= k < unpathed@.len() ==> timeline_vec@[0]@.merged_wf(
                            (#[trigger] unpathed@[k]).0@,
                        ) && unpathed@[k].1 <= 0x1000 && unpathed@[k].0@.cost == 0 && unpathed@[
                            k
                        ].0@.returned == 0 && unpathed@[k].0@.mined.len() == 0,
                decreases ship_ids@.len() - s,
            {
                let id = ship_ids[s];
                match paths.index_of(id) {
                    None => {
                        if start_bucket == 0 {
                            match game.ship_by_id(id) {
                                Some(ship) => {
                                    let act = MergedAction::new(id, ship.position, ship.halite);
                                    unpathed.push((act, 0));
                                },
                                None => {},
                            }
                        }
                    },
                    Some(pidx) => {
                        let len = paths.plans[pidx].1.len();
                        if len == start_bucket && len <= PATH_TIMEOUT / 2 && len
                            < timeline_vec.len() {
                            let st = &timeline_vec[len];
                            if st.contains_ship(id) {
                                let (pos, hal) = st.ship(id);
                                let act = MergedAction::new(id, pos, hal);
                                unpathed.push((act, len));
                            }
                        }
                    },
                }
                s = s + 1;
            }
            start_bucket = start_bucket + 1;
        }

        // Score every cell's surroundings.
        proof {
            assert(game.width * game.height <= 0x1000000) by (nonlinear_arith)
                requires 1 <= game.width <= 0x1000, 1 <= game.height <= 0x1000,
            ;
        }
        let area = game.width * game.height;
        let mut richness: Vec<usize> = Vec::new();
        let mut c: usize = 0;
        while c < area
            invariant
                game.wf(),
                area == game.width * game.height,
                area <= 0x1000000,
                c <= area,
                richness@.len() == c,
                forall|k: int| 0 <= k < c ==> #[trigger] richness@[k] <= 961 * 0x10000,
            decreases area - c,
        {
            proof {
                lemma_pos_of_index(c as int, game.width as int, game.height as int);
            }
            let pcell = Position { x: (c % game.width) as i32, y: (c / game.width) as i32 };
            let rv = richness_at(&game.cells, game.width, game.height, pcell);
            richness.push(rv);
            c = c + 1;
        }

        // The richest current site gates whether a brand-new depot pays.
        let state0ref = &timeline_vec[0];
        let mut max_rich: usize = 0;
        let mut c: usize = 0;
        while c < area
            invariant
                game.wf(),
                state0ref@.wf(),
                state0ref.width == game.width,
                state0ref.height == game.height,
                area == game.width * game.height,
                area <= 0x1000000,
                richness@.len() == area,
                forall|k: int| 0 <= k < area ==> #[trigger] richness@[k] <= 961 * 0x10000,
                c <= area,
                max_rich <= 961 * 0x10000,
            decreases area - c,
        {
            proof {
                lemma_pos_of_index(c as int, game.width as int, game.height as int);
            }
            let pcell = Position { x: (c % game.width) as i32, y: (c / game.width) as i32 };
            let is_site = state0ref.is_dropoff(pcell) || pos_contains(&building, pcell);
            if is_site {
                if richness[c] > max_rich {
                    max_rich = richness[c];
                }
            }
            c = c + 1;
        }

        // Candidate site for a brand-new depot.
        let mut dropoff_count: usize = 0;
        let mut c: usize = 0;
        while c < area
            invariant
                game.wf(),
                state0ref@.wf(),
                state0ref.width == game.width,
                state0ref.height == game.height,
                area == game.width * game.height,
                area <= 0x1000000,
                c <= area,
                dropoff_count <= c,
            decreases area - c,
        {
            proof {
                lemma_pos_of_index(c as int, game.width as int, game.height as int);
            }
            let pcell = Position { x: (c % game.width) as i32, y: (c / game.width) as i32 };
            if state0ref.is_dropoff(pcell) {
                dropoff_count = dropoff_count + 1;
            }
            c = c + 1;
        }
        proof {
            assert((max_rich as u64) * ((num_ships + 6) as u64) <= 0x4000000u64 * 0x2000u64) by (
            nonlinear_arith)
                requires max_rich <= 961 * 0x10000, num_ships <= 0x1000,
            ;
        }
        let cur_rate: u64 = (max_rich as u64) * ((num_ships + 6) as u64);
        let mut max_prime: Option<(Position, u64)> = None;
        if num_ships / SHIP_DROPOFF_RATIO >= dropoff_count {
            let mut c: usize = 0;
            while c < area
                invariant
                    game.wf(),
                    area == game.width * game.height,
                    area <= 0x1000000,
                    richness@.len() == area,
                    forall|k: int| 0 <= k < area ==> #[trigger] richness@[k] <= 961 * 0x10000,
                    max_rich <= 961 * 0x10000,
                    num_ships <= 0x1000,
                    c <= area,
                    match max_prime {
                        Some(mp) => pos_on_board(mp.0, game.width as int, game.height as int),
                        None => true,
                    },
                decreases area - c,
            {
                proof {
                    lemma_pos_of_index(c as int, game.width as int, game.height as int);
                }
                let pcell = Position { x: (c % game.width) as i32, y: (c / game.width) as i32 };
                let hal = richness[c];
                proof {
                    assert((hal as u64) * (num_ships as u64) <= 0x4000000u64 * 0x1000u64 && (
                    max_rich as u64) * (num_ships as u64) <= 0x4000000u64 * 0x1000u64) by (
                    nonlinear_arith)
                        requires
                            hal <= 961 * 0x10000,
                            max_rich <= 961 * 0x10000,
                            num_ships <= 0x1000,
                    ;
                }
                let rate: u64 = (hal as u64) * (num_ships as u64) / 2 + (max_rich as u64) * (
                num_ships as u64) / 2;
                if rate > cur_rate {
                    let min_dist = nearest_site_distance(game, pcell, false);
                    let max_dist = nearest_site_distance(game, pcell, true);
                    if min_dist >= MIN_DROPOFF_DIST && max_dist <= MAX_DROPOFF_DIST {
                        let better = match max_prime {
                            Some(mp) => rate > mp.1,
                            None => true,
                        };
                        if better {
                            max_prime = Some((pcell, rate));
                        }
                    }
                }
                c = c + 1;
            }
        }
        let prime = match max_prime {
            Some(mp) => Some(mp.0),
            None => None,
        };
        if prime.is_some() {
            if save <= usize::MAX - game.constants.dropoff_cost {
                save = save + game.constants.dropoff_cost;
            }
        }

        // The list of (depot cell, first offset it exists) pairs.
        let mut depot_sites: Vec<(Position, usize)> = Vec::new();
        let mut ti: usize = 0;
        let tl_len = timeline_vec.len();
        while ti < tl_len
            invariant
                game.wf(),
                tl_len == timeline_vec@.len(),
                1 <= tl_len <= 0x28000,
                forall|j: int|
                    0 <= j < timeline_vec@.len() ==> (#[trigger] timeline_vec@[j])@.wf(),
                forall|j: int|
                    0 <= j < timeline_vec@.len() ==> (#[trigger] timeline_vec@[j]).width
                        == game.width && timeline_vec@[j].height == game.height,
                area == game.width * game.height,
                area <= 0x1000000,
                ti <= tl_len,
                forall|k: int|
                    0 <= k < depot_sites@.len() ==> pos_on_board(
                        (#[trigger] depot_sites@[k]).0,
                        game.width as int,
                        game.height as int,
                    ) && depot_sites@[k].1 <= 0x1000,
                depot_sites@.len() <= 0x100,
            decreases tl_len - ti,
        {
            if ti > 0x1000 {
                break ;
            }
            let mut c: usize = 0;
            while c < area
                invariant
                    game.wf(),
                    tl_len == timeline_vec@.len(),
                    ti < tl_len,
                    ti <= 0x1000,
                    forall|j: int|
                        0 <= j < timeline_vec@.len() ==> (#[trigger] timeline_vec@[j])@.wf(),
                    forall|j: int|
                        0 <= j < timeline_vec@.len() ==> (#[trigger] timeline_vec@[j]).width
                            == game.width && timeline_vec@[j].height == game.height,
                    area == game.width * game.height,
                    area <= 0x1000000,
                    c <= area,
                    forall|k: int|
                        0 <= k < depot_sites@.len() ==> pos_on_board(
                            (#[trigger] depot_sites@[k]).0,
                            game.width as int,
                            game.height as int,
                        ) && depot_sites@[k].1 <= 0x1000,
                    depot_sites@.len() <= 0x100,
                decreases area - c,
            {
                proof {
                    lemma_pos_of_index(c as int, game.width as int, game.height as int);
                }
                let pcell = Position { x: (c % game.width) as i32, y: (c / game.width) as i32 };
                let st = &timeline_vec[ti];
                if st.is_dropoff(pcell) && !site_contains(&depot_sites, pcell) && depot_sites.len()
                    < 0x100 {
                    depot_sites.push((pcell, ti));
                }
                c = c + 1;
            }
            ti = ti + 1;
        }

        // Assignment: rows are units, columns are (depot, contention-rank).
        let rows = num_ships;
        let n_sites = depot_sites.len();
        let mut target_dropoffs: Vec<(ShipId, (Position, usize))> = Vec::new();
        if rows >= 1 && n_sites >= 1 && rows <= 0x1000 {
            proof {
                assert(n_sites * rows <= 0x100 * 0x1000) by (nonlinear_arith)
                    requires n_sites <= 0x100, rows <= 0x1000,
                ;
            }
            let columns = n_sites * rows;
            let mut weights: Vec<i64> = Vec::new();
            let mut srow: usize = 0;
            while srow < rows
                invariant
                    game.wf(),
                    rows == num_ships,
                    rows <= ship_ids@.len(),
                    1 <= rows <= 0x1000,
                    1 <= n_sites <= 0x100,
                    n_sites == depot_sites@.len(),
                    columns == n_sites * rows,
                    columns <= 0x100000,
                    forall|k: int|
                        0 <= k < depot_sites@.len() ==> pos_on_board(
                            (#[trigger] depot_sites@[k]).0,
                            game.width as int,
                            game.height as int,
                        ) && depot_sites@[k].1 <= 0x1000,
                    richness@.len() == area,
                    area == game.width * game.height,
                    forall|k: int| 0 <= k < area ==> #[trigger] richness@[k] <= 961 * 0x10000,
                    srow <= rows,
                    weights@.len() == srow * columns,
                    forall|k: int|
                        0 <= k < weights@.len() ==> -0x4000_0000 <= #[trigger] weights@[k]
                            <= 0x4000_0000,
                decreases rows - srow,
            {
                let ship_pos_raw = match game.ship_by_id(ship_ids[srow]) {
                    Some(ship) => ship.position,
                    None => me_shipyard,
                };
                let ship_pos = Position {
                    x: crate::grid::norm_coord(ship_pos_raw.x, game.width as i32),
                    y: crate::grid::norm_coord(ship_pos_raw.y, game.height as i32),
                };
                let mut site: usize = 0;
                while site < n_sites
                    invariant
                        game.wf(),
                        1 <= rows <= 0x1000,
                        1 <= n_sites <= 0x100,
                        n_sites == depot_sites@.len(),
                        columns == n_sites * rows,
                        columns <= 0x100000,
                        forall|k: int|
                            0 <= k < depot_sites@.len() ==> pos_on_board(
                                (#[trigger] depot_sites@[k]).0,
                                game.width as int,
                                game.height as int,
                            ) && depot_sites@[k].1 <= 0x1000,
                        richness@.len() == area,
                        area == game.width * game.height,
                        forall|k: int| 0 <= k < area ==> #[trigger] richness@[k] <= 961 * 0x10000,
                        pos_on_board(ship_pos, game.width as int, game.height as int),
                        srow < rows,
                        site <= n_sites,
                        weights@.len() == srow * columns + site * rows,
                        forall|k: int|
                            0 <= k < weights@.len() ==> -0x4000_0000 <= #[trigger] weights@[k]
                                <= 0x4000_0000,
                    decreases n_sites - site,
                {
                    let (dpos, dt) = depot_sites[site];
                    let dist0 = crate::grid::toroidal_distance(
                        ship_pos,
                        dpos,
                        game.width as i32,
                        game.height as i32,
                    );
                    let dist = if dist0 >= dt {
                        dist0
                    } else {
                        dt
                    };
                    proof {
                        lemma_cell_index_in_range(dpos, game.width as int, game.height as int);
                    }
                    let dval = richness[(dpos.y as usize) * game.width + (dpos.x as usize)];
                    let mut n: usize = 0;
                    while n < rows
                        invariant
                            1 <= rows <= 0x1000,
                            dval <= 961 * 0x10000,
                            dist <= 0x3000,
                            n <= rows,
                            weights@.len() == srow * columns + site * rows + n,
                            forall|k: int|
                                0 <= k < weights@.len() ==> -0x4000_0000 <= #[trigger] weights@[k]
                                    <= 0x4000_0000,
                        decreases rows - n,
                    {
                        let value = sig(dval, dist + n * SHIP_DIST_RATIO, SCALE_FACTOR);
                        proof {
                            assert(value <= dval);
                        }
                        weights.push(value as i64);
                        n = n + 1;
                    }
                    site = site + 1;
                    proof {
                        assert(srow * columns + (site - 1) * rows + rows == srow * columns + site
                            * rows) by (nonlinear_arith)
                            requires site >= 1,
                        ;
                    }
                }
                srow = srow + 1;
                proof {
                    assert((srow - 1) * columns + n_sites * rows == srow * columns) by (
                    nonlinear_arith)
                        requires columns == n_sites * rows, srow >= 1,
                    ;
                }
            }
            proof {
                assert(rows * columns == weights@.len()) by (nonlinear_arith)
                    requires weights@.len() == rows * columns,
                ;
            }
            target_dropoffs = select_targets(&ship_ids, &depot_sites, &weights, rows, columns);
            proof {
                let m = choose|m: Seq<usize>|
                    {
                        &&& crate::assign::valid_assignment(m, rows as int, columns as int)
                        &&& forall|b: Seq<usize>|
                            crate::assign::valid_assignment(b, rows as int, columns as int)
                                ==> crate::assign::assignment_weight(weights@, columns as int, b)
                                <= crate::assign::assignment_weight(weights@, columns as int, m)
                        &&& forall|i: int|
                            0 <= i < rows ==> #[trigger] target_dropoffs@[i] == (
                                ship_ids@[i],
                                depot_sites@[(m[i] as int) / (rows as int)],
                            )
                    };
                assert forall|k: int|
                    0 <= k < target_dropoffs@.len() implies pos_on_board(
                    (#[trigger] target_dropoffs@[k]).1.0,
                    game.width as int,
                    game.height as int,
                ) && target_dropoffs@[k].1.1 <= 0x1000 by {
                    assert(target_dropoffs@[k] == (
                        ship_ids@[k],
                        depot_sites@[(m[k] as int) / (rows as int)],
                    ));
                    assert(0 <= (m[k] as int) / (rows as int) < depot_sites@.len()) by (nonlinear_arith)
                        requires
                            m[k] < depot_sites@.len() * rows,
                            1 <= rows,
                            0 <= m[k],
                            columns == depot_sites@.len() * rows,
                    ;
                }
            }
        }

        let spawn_action = MergedAction::spawn(me_shipyard);
        let r = Timeline {
            timeline: timeline_vec,
            unpathed,
            mined,
            target_dropoffs,
            spawn_action,
            constants: game.constants,
            nav,
            prime,
            save,
        };
        proof {
            assert(pos_on_board(me_shipyard, game.width as int, game.height as int));
            assert(r.wf());
        }
        r
    }
}

/// Zip a maximum-weight matching into per-unit depot targets: the result
/// assigns unit `i` the depot of its matched (depot, contention-rank) slot,
/// for a matching of the given weight matrix that is total, injective and
/// of maximal total weight over all such assignments.
fn select_targets(
    ship_ids: &Vec<ShipId>,
    depot_sites: &Vec<(Position, usize)>,
    weights: &Vec<i64>,
    rows: usize,
    columns: usize,
) -> (r: Vec<(ShipId, (Position, usize))>)
    requires
        1 <= rows <= 0x1000,
        rows <= ship_ids@.len(),
        1 <= depot_sites@.len() <= 0x100,
        columns == depot_sites@.len() * rows,
        columns <= 0x100000,
        weights@.len() == rows * columns,
        forall|i: int|
            0 <= i < weights@.len() ==> -0x4000_0000 <= #[trigger] weights@[i] <= 0x4000_0000,
    ensures
        r@.len() == rows,
        exists|m: Seq<usize>|
            {
                &&& crate::assign::valid_assignment(m, rows as int, columns as int)
                &&& forall|b: Seq<usize>|
                    crate::assign::valid_assignment(b, rows as int, columns as int)
                        ==> crate::assign::assignment_weight(weights@, columns as int, b)
                        <= crate::assign::assignment_weight(weights@, columns as int, m)
                &&& forall|i: int|
                    0 <= i < rows ==> #[trigger] r@[i] == (
                        ship_ids@[i],
                        depot_sites@[(m[i] as int) / (rows as int)],
                    )
            },
{
    proof {
        assert(rows <= columns) by (nonlinear_arith)
            requires columns == depot_sites@.len() * rows, depot_sites@.len() >= 1, rows >= 1,
        ;
    }
    let matching = match solve_assignment(rows, columns, weights) {
        Some(m) => m,
        None => {
            proof {
                assert(false);
            }
            unreached()
        },
    };
    let mut r: Vec<(ShipId, (Position, usize))> = Vec::new();
    let mut si: usize = 0;
    while si < rows
        invariant
            1 <= rows <= 0x1000,
            rows <= ship_ids@.len(),
            1 <= depot_sites@.len() <= 0x100,
            columns == depot_sites@.len() * rows,
            matching@.len() == rows,
            forall|k: int| 0 <= k < matching@.len() ==> (#[trigger] matching@[k]) < columns,
            si <= rows,
            r@.len() == si,
            forall|i: int|
                0 <= i < si ==> #[trigger] r@[i] == (
                    ship_ids@[i],
                    depot_sites@[(matching@[i] as int) / (rows as int)],
                ),
        decreases rows - si,
    {
        let slot = matching[si];
        let dix = slot / rows;
        proof {
            assert(slot / rows < depot_sites@.len()) by (nonlinear_arith)
                requires
                    slot < depot_sites@.len() * rows,
                    1 <= rows,
                    0 <= slot,
            ;
        }
        let tgt = depot_sites[dix];
        r.push((ship_ids[si], tgt));
        si = si + 1;
    }
    proof {
        let m = matching@;
        assert(crate::assign::valid_assignment(m, rows as int, columns as int));
    }
    r
}

/// Whether a unit id is already recorded as poisoned.
fn poison_contains(v: &Vec<(ShipId, usize)>, id: ShipId) -> (r: bool)
    ensures
        r == exists|k: int| 0 <= k < v@.len() && (#[trigger] v@[k]).0 == id,
{
    let mut k: usize = 0;
    while k < v.len()
        invariant
            k <= v@.len(),
            forall|j: int| 0 <= j < k ==> (#[trigger] v@[j]).0 != id,
        decreases v@.len() - k,
    {
        if v[k].0.0 == id.0 {
            return true;
        }
        k = k + 1;
    }
    false
}

fn id_contains(v: &Vec<ShipId>, id: ShipId) -> (r: bool)
    ensures
        r == exists|k: int| 0 <= k < v@.len() && (#[trigger] v@[k]) == id,
{
    let mut k: usize = 0;
    while k < v.len()
        invariant
            k <= v@.len(),
            forall|j: int| 0 <= j < k ==> (#[trigger] v@[j]) != id,
        decreases v@.len() - k,
    {
        if v[k].0 == id.0 {
            return true;
        }
        k = k + 1;
    }
    false
}

fn pos_contains(v: &Vec<Position>, p: Position) -> (r: bool)
    ensures
        r == exists|k: int| 0 <= k < v@.len() && (#[trigger] v@[k]) == p,
{
    let mut k: usize = 0;
    while k < v.len()
        invariant
            k <= v@.len(),
            forall|j: int| 0 <= j < k ==> (#[trigger] v@[j]) != p,
        decreases v@.len() - k,
    {
        if v[k].x == p.x && v[k].y == p.y {
            return true;
        }
        k = k + 1;
    }
    false
}

fn site_contains(v: &Vec<(Position, usize)>, p: Position) -> (r: bool)
    ensures
        r == exists|k: int| 0 <= k < v@.len() && (#[trigger] v@[k]).0 == p,
{
    let mut k: usize = 0;
    while k < v.len()
        invariant
            k <= v@.len(),
            forall|j: int| 0 <= j < k ==> (#[trigger] v@[j]).0 != p,
        decreases v@.len() - k,
    {
        if v[k].0.x == p.x && v[k].0.y == p.y {
            return true;
        }
        k = k + 1;
    }
    false
}

/// Record the latest offset at which a cell is mined by a committed plan.
fn mined_upsert(v: &mut Vec<(Position, usize)>, p: Position, t: usize)
    ensures
        final(v)@.len() <= old(v)@.len() + 1,
        forall|k: int|
            0 <= k < final(v)@.len() ==> ((#[trigger] final(v)@[k]).0 == p && final(v)@[k].1 == t)
                || (k < old(v)@.len() && final(v)@[k] == old(v)@[k]),
{
    let mut k: usize = 0;
    while k < v.len()
        invariant
            k <= v@.len(),
            v@ == old(v)@,
        decreases v@.len() - k,
    {
        if v[k].0.x == p.x && v[k].0.y == p.y {
            v.set(k, (p, t));
            return ;
        }
        k = k + 1;
    }
    v.push((p, t));
}

/// The toroidal distance from `p` to the nearest existing site: every
/// player's depots and home cells when `mine_only` is false, only the
/// controlled player's when true.
fn nearest_site_distance(game: &Game, p: Position, mine_only: bool) -> (r: usize)
    requires
        game.wf(),
        pos_on_board(p, game.width as int, game.height as int),
    ensures
        r <= 0x2000,
{
    let mut best: usize = 0x2000;
    let mut k: usize = 0;
    while k < game.dropoffs.len()
        invariant
            game.wf(),
            pos_on_board(p, game.width as int, game.height as int),
            k <= game.dropoffs@.len(),
            best <= 0x2000,
        decreases game.dropoffs@.len() - k,
    {
        let d = &game.dropoffs[k];
        if !mine_only || d.owner.0 == game.my_id.0 {
            let dist = crate::grid::toroidal_distance(
                p,
                d.position,
                game.width as i32,
                game.height as i32,
            );
            if dist < best {
                best = dist;
            }
        }
        k = k + 1;
    }
    let mut k: usize = 0;
    while k < game.players.len()
        invariant
            game.wf(),
            pos_on_board(p, game.width as int, game.height as int),
            k <= game.players@.len(),
            best <= 0x2000,
        decreases game.players@.len() - k,
    {
        let pl = &game.players[k];
        if !mine_only || pl.id.0 == game.my_id.0 {
            let dist = crate::grid::toroidal_distance(
                p,
                pl.shipyard,
                game.width as i32,
                game.height as i32,
            );
            if dist < best {
                best = dist;
            }
        }
        k = k + 1;
    }
    best
}

/// Bounds every candidate stored by the search must satisfy, stratified by
/// its turn offset so that the accumulated pricing stays within range.
pub open spec fn entry_ok(e: (Position, usize, MergedAction), m0: StateModel, id: ShipId) -> bool {
    &&& m0.merged_wf(e.2@)
    &&& e.2.pos == e.0
    &&& e.2.ship_id == id
    &&& e.1 <= 0x1001
    &&& e.2@.returned <= 0x10000 * (e.1 + 1)
    &&& -0x200000 * (e.1 + 1) <= e.2@.cost <= 0x200000 * (e.1 + 1)
}

/// The search's working map: the cheapest candidate found so far for each
/// (cell, turn-offset) pair, all for one unit.
pub struct MergedMap {
    pub entries: Vec<(Position, usize, MergedAction)>,
    pub ship: ShipId,
}

impl MergedMap {
    pub open spec fn wf(self, m0: StateModel) -> bool {
        &&& forall|k: int|
            0 <= k < self.entries@.len() ==> entry_ok(
                (#[trigger] self.entries@[k]),
                m0,
                self.ship,
            )
        &&& forall|k: int, l: int|
            0 <= k < l < self.entries@.len() ==> !((#[trigger] self.entries@[k]).0 == (
            #[trigger] self.entries@[l]).0 && self.entries@[k].1 == self.entries@[l].1)
    }

    /// The stored candidate for a node, if any.
    pub open spec fn at_node(self, pos: Position, t: usize) -> Option<MergedAction> {
        if exists|k: int|
            0 <= k < self.entries@.len() && (#[trigger] self.entries@[k]).0 == pos
                && self.entries@[k].1 == t {
            let k = choose|k: int|
                0 <= k < self.entries@.len() && (#[trigger] self.entries@[k]).0 == pos
                    && self.entries@[k].1 == t;
            Some(self.entries@[k].2)
        } else {
            None
        }
    }

    /// Find the stored candidate for a (cell, offset) pair.
    pub fn find(&self, pos: Position, t: usize) -> (r: Option<usize>)
        ensures
            match r {
                Some(k) => k < self.entries@.len() && self.entries@[k as int].0 == pos
                    && self.entries@[k as int].1 == t,
                None => forall|k: int|
                    0 <= k < self.entries@.len() ==> !((#[trigger] self.entries@[k]).0 == pos
                        && self.entries@[k].1 == t),
            },
    {
        let mut k: usize = 0;
        while k < self.entries.len()
            invariant
                k <= self.entries@.len(),
                forall|j: int|
                    0 <= j < k ==> !((#[trigger] self.entries@[j]).0 == pos && self.entries@[
                        j
                    ].1 == t),
            decreases self.entries@.len() - k,
        {
            let e = &self.entries[k];
            if e.0.x == pos.x && e.0.y == pos.y && e.1 == t {
                return Some(k);
            }
            k = k + 1;
        }
        None
    }
}

/// Whether the record of committed mining marks cell `p` as mined at
/// offset `t` or later.
pub open spec fn mined_later_spec(mined: Seq<(Position, usize)>, p: Position, t: usize) -> bool {
    exists|k: int| 0 <= k < mined.len() && (#[trigger] mined[k]).0 == p && t <= mined[k].1
}

/// Whether `(npos, ncost)` is the cell and accumulated price of one of the
/// legal successors of candidate `p0` expanded at node `(pos0, t0)`:
/// the successors of `p0` against the next offset's state with `p0`'s
/// deltas merged, mining forbidden where a committed plan mines later.
pub open spec fn expanded_from(
    tl: Timeline,
    p0: MergedModel,
    allow_mine: bool,
    t0: usize,
    npos: Position,
    ncost: i64,
) -> bool {
    exists|k: int|
        0 <= k < tl.timeline@[t0 + 1]@.spec_apply_merged(p0).spec_successors(
            p0,
            allow_mine,
            true,
        ).len() && (#[trigger] tl.timeline@[t0 + 1]@.spec_apply_merged(p0).spec_successors(
            p0,
            allow_mine,
            true,
        )[k]).pos == npos && tl.timeline@[t0 + 1]@.spec_apply_merged(p0).spec_successors(
            p0,
            allow_mine,
            true,
        )[k].cost == ncost
}

/// Whether a committed plan mines cell `p` at offset `t` or later, so a
/// fresh plan must not re-mine it.
fn mined_later(mined: &Vec<(Position, usize)>, p: Position, t: usize) -> (r: bool)
    ensures
        r == mined_later_spec(mined@, p, t),
{
    let mut k: usize = 0;
    while k < mined.len()
        invariant
            k <= mined@.len(),
            forall|j: int|
                0 <= j < k ==> !((#[trigger] mined@[j]).0 == p && t <= mined@[j].1),
        decreases mined@.len() - k,
    {
        let e = mined[k];
        if e.0.x == p.x && e.0.y == p.y && t <= e.1 {
            return true;
        }
        k = k + 1;
    }
    false
}

/// Replacing the stored candidate at one node leaves every other node's
/// stored candidate unchanged.
proof fn lemma_at_node_after_set(
    pre: MergedMap,
    post: MergedMap,
    j: int,
    npos: Position,
    nt: usize,
    ncost: i64,
)
    requires
        forall|k: int, l: int|
            0 <= k < l < pre.entries@.len() ==> !((#[trigger] pre.entries@[k]).0 == (
            #[trigger] pre.entries@[l]).0 && pre.entries@[k].1 == pre.entries@[l].1),
        0 <= j < pre.entries@.len(),
        pre.entries@[j].0 == npos,
        pre.entries@[j].1 == nt,
        post.entries@.len() == pre.entries@.len(),
        post.entries@[j].0 == npos,
        post.entries@[j].1 == nt,
        post.entries@[j].2.cost == ncost,
        forall|k: int|
            0 <= k < pre.entries@.len() && k != j ==> #[trigger] post.entries@[k]
                == pre.entries@[k],
    ensures
        pre.at_node(npos, nt) == Some(pre.entries@[j].2),
        (post.at_node(npos, nt) matches Some(c) && c.cost == ncost),
        forall|p: Position, tt: usize|
            !(p == npos && tt == nt) ==> #[trigger] post.at_node(p, tt) == pre.at_node(p, tt),
{
    let kc0 = choose|c: int|
        0 <= c < pre.entries@.len() && (#[trigger] pre.entries@[c]).0 == npos && pre.entries@[
            c
        ].1 == nt;
    if kc0 != j {
        if kc0 < j {
            assert(!(pre.entries@[kc0].0 == pre.entries@[j].0 && pre.entries@[kc0].1
                == pre.entries@[j].1));
        } else {
            assert(!(pre.entries@[j].0 == pre.entries@[kc0].0 && pre.entries@[j].1
                == pre.entries@[kc0].1));
        }
    }
    assert(forall|k: int|
        0 <= k < post.entries@.len() ==> (#[trigger] post.entries@[k]).0 == pre.entries@[k].0
            && post.entries@[k].1 == pre.entries@[k].1);
    let kc1 = choose|c: int|
        0 <= c < post.entries@.len() && (#[trigger] post.entries@[c]).0 == npos && post.entries@[
            c
        ].1 == nt;
    if kc1 != j {
        if kc1 < j {
            assert(!(pre.entries@[kc1].0 == pre.entries@[j].0 && pre.entries@[kc1].1
                == pre.entries@[j].1));
        } else {
            assert(!(pre.entries@[j].0 == pre.entries@[kc1].0 && pre.entries@[j].1
                == pre.entries@[kc1].1));
        }
    }
    assert forall|p: Position, tt: usize|
        !(p == npos && tt == nt) implies #[trigger] post.at_node(p, tt) == pre.at_node(
        p,
        tt,
    ) by {
        if exists|c: int|
            0 <= c < pre.entries@.len() && (#[trigger] pre.entries@[c]).0 == p && pre.entries@[
                c
            ].1 == tt {
            let ca = choose|c: int|
                0 <= c < pre.entries@.len() && (#[trigger] pre.entries@[c]).0 == p
                    && pre.entries@[c].1 == tt;
            let cb = choose|c: int|
                0 <= c < post.entries@.len() && (#[trigger] post.entries@[c]).0 == p
                    && post.entries@[c].1 == tt;
            assert(post.entries@[ca].0 == p && post.entries@[ca].1 == tt);
            if ca != cb {
                if ca < cb {
                    assert(!(pre.entries@[ca].0 == pre.entries@[cb].0 && pre.entries@[ca].1
                        == pre.entries@[cb].1));
                } else {
                    assert(!(pre.entries@[cb].0 == pre.entries@[ca].0 && pre.entries@[cb].1
                        == pre.entries@[ca].1));
                }
            }
            assert(ca != j);
            assert(post.entries@[ca] == pre.entries@[ca]);
        } else {
            assert(forall|c: int|
                0 <= c < post.entries@.len() ==> !((#[trigger] post.entries@[c]).0 == p
                    && post.entries@[c].1 == tt));
        }
    }
}

/// Adding a candidate at a previously absent node leaves every other
/// node's stored candidate unchanged.
proof fn lemma_at_node_after_push(
    pre: MergedMap,
    post: MergedMap,
    npos: Position,
    nt: usize,
    ncost: i64,
)
    requires
        forall|k: int, l: int|
            0 <= k < l < pre.entries@.len() ==> !((#[trigger] pre.entries@[k]).0 == (
            #[trigger] pre.entries@[l]).0 && pre.entries@[k].1 == pre.entries@[l].1),
        forall|k: int|
            0 <= k < pre.entries@.len() ==> !((#[trigger] pre.entries@[k]).0 == npos
                && pre.entries@[k].1 == nt),
        post.entries@.len() == pre.entries@.len() + 1,
        post.entries@.last().0 == npos,
        post.entries@.last().1 == nt,
        post.entries@.last().2.cost == ncost,
        forall|k: int|
            0 <= k < pre.entries@.len() ==> #[trigger] post.entries@[k] == pre.entries@[k],
    ensures
        pre.at_node(npos, nt) is None,
        (post.at_node(npos, nt) matches Some(c) && c.cost == ncost),
        forall|p: Position, tt: usize|
            !(p == npos && tt == nt) ==> #[trigger] post.at_node(p, tt) == pre.at_node(p, tt),
{
    let n = pre.entries@.len() as int;
    assert(post.entries@[n].0 == npos && post.entries@[n].1 == nt);
    let kc1 = choose|c: int|
        0 <= c < post.entries@.len() && (#[trigger] post.entries@[c]).0 == npos && post.entries@[
            c
        ].1 == nt;
    if kc1 != n {
        assert(post.entries@[kc1] == pre.entries@[kc1]);
        assert(false);
    }
    assert forall|p: Position, tt: usize|
        !(p == npos && tt == nt) implies #[trigger] post.at_node(p, tt) == pre.at_node(
        p,
        tt,
    ) by {
        if exists|c: int|
            0 <= c < pre.entries@.len() && (#[trigger] pre.entries@[c]).0 == p && pre.entries@[
                c
            ].1 == tt {
            let ca = choose|c: int|
                0 <= c < pre.entries@.len() && (#[trigger] pre.entries@[c]).0 == p
                    && pre.entries@[c].1 == tt;
            assert(post.entries@[ca].0 == p && post.entries@[ca].1 == tt);
            let cb = choose|c: int|
                0 <= c < post.entries@.len() && (#[trigger] post.entries@[c]).0 == p
                    && post.entries@[c].1 == tt;
            if cb == n {
                assert(false);
            }
            assert(post.entries@[cb] == pre.entries@[cb]);
            if ca != cb {
                if ca < cb {
                    assert(!(pre.entries@[ca].0 == pre.entries@[cb].0 && pre.entries@[ca].1
                        == pre.entries@[cb].1));
                } else {
                    assert(!(pre.entries@[cb].0 == pre.entries@[ca].0 && pre.entries@[cb].1
                        == pre.entries@[ca].1));
                }
            }
            let cp = pre_choose_idx(pre, p, tt);
            if cp != cb {
                if cp < cb {
                    assert(!(pre.entries@[cp].0 == pre.entries@[cb].0 && pre.entries@[cp].1
                        == pre.entries@[cb].1));
                } else {
                    assert(!(pre.entries@[cb].0 == pre.entries@[cp].0 && pre.entries@[cb].1
                        == pre.entries@[cp].1));
                }
            }
            assert(post.at_node(p, tt) == Some(post.entries@[cb].2));
            assert(pre.at_node(p, tt) == Some(pre.entries@[cp].2));
        } else {
            assert(forall|c: int|
                0 <= c < post.entries@.len() ==> (#[trigger] post.entries@[c]).0 == p
                    && post.entries@[c].1 == tt ==> c == n);
            if exists|c: int|
                0 <= c < post.entries@.len() && (#[trigger] post.entries@[c]).0 == p
                    && post.entries@[c].1 == tt {
                let cc = choose|c: int|
                    0 <= c < post.entries@.len() && (#[trigger] post.entries@[c]).0 == p
                        && post.entries@[c].1 == tt;
                assert(cc == n || post.entries@[cc] == pre.entries@[cc]);
                assert(false);
            }
        }
    }
}

/// The index `at_node` resolves for a present node.
spec fn pre_choose_idx(m: MergedMap, p: Position, tt: usize) -> int {
    choose|c: int|
        0 <= c < m.entries@.len() && (#[trigger] m.entries@[c]).0 == p && m.entries@[c].1 == tt
}

impl MergedMap {
    /// The successor step of the search: look up the cheapest candidate at
    /// the given (cell, offset) node, enumerate its legal extensions against
    /// the next turn's state, keep the cheapest candidate per reached node,
    /// and return the reached nodes with their marginal scalar price.
    pub fn expand(
        &mut self,
        tl: &Timeline,
        key: (Position, usize, i64),
        max_lookahead: usize,
    ) -> (r: Vec<((Position, usize, i64), i64)>)
        requires
            tl.wf(),
            old(self).wf(tl.timeline@[0]@),
            max_lookahead <= 0x1000,
        ensures
            final(self).wf(tl.timeline@[0]@),
            final(self).ship == old(self).ship,
            // Past the lookahead bound, past the timeline, or off the map,
            // nothing is expanded and nothing changes.
            key.1 >= max_lookahead ==> r@.len() == 0 && *final(self) == *old(self),
            old(self).at_node(key.0, key.1) is None ==> r@.len() == 0 && *final(self) == *old(
                self,
            ),
            // Every emitted node is one turn offset on, priced at one step
            // plus the candidate's marginal cost over its parent, and its
            // candidate is one of the legal successors of the stored parent
            // (re-mining forbidden where a committed plan mines later).
            (old(self).at_node(key.0, key.1) matches Some(p0) ==> (forall|j: int|
                0 <= j < r@.len() ==> (#[trigger] r@[j]).0.1 == key.1 + 1 && r@[j].1
                    == crate::cost::STEP_WEIGHT + r@[j].0.2 - p0@.cost && expanded_from(
                    *tl,
                    p0@,
                    !mined_later_spec(tl.mined@, key.0, key.1),
                    key.1,
                    r@[j].0.0,
                    r@[j].0.2,
                ))),
            // Cheapest-per-node: every emitted node's cell keeps a stored
            // candidate at most as expensive as the one just emitted.
            forall|j: int|
                0 <= j < r@.len() ==> ((#[trigger] final(self).at_node(
                    r@[j].0.0,
                    r@[j].0.1,
                )) matches Some(c) && c@.cost <= r@[j].0.2),
    {
        let (pos, t, _key_cost) = key;
        if t >= max_lookahead {
            return Vec::new();
        }
        if t + 1 >= tl.timeline.len() {
            return Vec::new();
        }
        let idx = match self.find(pos, t) {
            Some(i) => i,
            None => {
                proof {
                    if self.at_node(pos, t) is Some {
                        let kc = choose|c: int|
                            0 <= c < self.entries@.len() && (#[trigger] self.entries@[c]).0 == pos
                                && self.entries@[c].1 == t;
                        assert(false);
                    }
                }
                return Vec::new();
            },
        };
        proof {
            let kc = choose|c: int|
                0 <= c < self.entries@.len() && (#[trigger] self.entries@[c]).0 == pos
                    && self.entries@[c].1 == t;
            if kc < idx as int {
                assert(!(self.entries@[kc].0 == self.entries@[idx as int].0 && self.entries@[
                    kc
                ].1 == self.entries@[idx as int].1));
            } else if (idx as int) < kc {
                assert(!(self.entries@[idx as int].0 == self.entries@[kc].0 && self.entries@[
                    idx as int
                ].1 == self.entries@[kc].1));
            }
            assert(self.at_node(pos, t) == Some(self.entries@[idx as int].2));
        }
        let parent = {
            let e = &self.entries[idx];
            e.2.duplicate()
        };
        let state = &tl.timeline[t + 1];
        let allow_mine = !mined_later(&tl.mined, pos, t);
        // Merging registers the unit in a copy of the state; a full record
        // list (which a well-formed snapshot cannot produce) yields nothing.
        if !state.contains_ship(parent.ship_id) && state.ships.len() >= 0x1000 {
            return Vec::new();
        }
        proof {
            assert(state@.merged_wf(parent@));
        }
        let succs = state.actions(&parent, allow_mine, true);
        let ghost st = state@.spec_apply_merged(parent@);
        proof {
            lemma_apply_mined_bounded(
                state@.map,
                parent@.mined,
                state@.width as int,
                state@.height as int,
            );
            lemma_cell_index_in_range(parent.pos, state@.width as int, state@.height as int);
            lemma_succs_bounded(st, parent@, allow_mine, true);
            assert(succs@.map_values(|a: MergedAction| a@) =~= st.spec_successors(
                parent@,
                allow_mine,
                true,
            ));
            assert forall|j: int|
                0 <= j < succs@.len() implies succ_bounded(
                (#[trigger] succs@[j])@,
                st,
                parent@,
            ) by {
                assert(succs@.map_values(|a: MergedAction| a@)[j] == succs@[j]@);
                assert(st.spec_successors(parent@, allow_mine, true)[j] == succs@[j]@);
            }
        }
        let mut out: Vec<((Position, usize, i64), i64)> = Vec::new();
        let parent_cost = parent.cost;
        let mut k: usize = 0;
        proof {
            assert(st == tl.timeline@[t as int + 1]@.spec_apply_merged(parent@));
        }
        while k < succs.len()
            invariant
                tl.wf(),
                self.wf(tl.timeline@[0]@),
                self.ship == old(self).ship,
                k <= succs@.len(),
                t + 1 <= 0x1001,
                pos == key.0,
                t == key.1,
                t + 1 < tl.timeline@.len(),
                parent_cost == parent@.cost,
                old(self).at_node(key.0, key.1) == Some(old(self).entries@[idx as int].2),
                parent@ == old(self).entries@[idx as int].2@,
                allow_mine == !mined_later_spec(tl.mined@, pos, t),
                st == tl.timeline@[t as int + 1]@.spec_apply_merged(parent@),
                succs@.map_values(|a: MergedAction| a@) == st.spec_successors(
                    parent@,
                    allow_mine,
                    true,
                ),
                -0x200000 * (t + 1) <= parent_cost <= 0x200000 * (t + 1),
                parent@.returned <= 0x10000 * (t + 1),
                parent@.ship_id == self.ship,
                forall|j: int|
                    0 <= j < succs@.len() ==> succ_bounded(
                        (#[trigger] succs@[j])@,
                        st,
                        parent@,
                    ),
                st.width == tl.timeline@[0].width,
                st.height == tl.timeline@[0].height,
                st.constants == tl.timeline@[0].constants,
                forall|j: int|
                    0 <= j < out@.len() ==> (#[trigger] out@[j]).0.1 == t + 1 && out@[j].1
                        == crate::cost::STEP_WEIGHT + out@[j].0.2 - parent_cost && expanded_from(
                        *tl,
                        parent@,
                        allow_mine,
                        t,
                        out@[j].0.0,
                        out@[j].0.2,
                    ),
                forall|j: int|
                    0 <= j < out@.len() ==> ((#[trigger] self.at_node(
                        out@[j].0.0,
                        out@[j].0.1,
                    )) matches Some(c) && c@.cost <= out@[j].0.2),
            decreases succs@.len() - k,
        {
            let action = succs[k].duplicate();
            let marginal = action.cost - parent_cost;
            let npos = action.pos;
            let ncost = action.cost;
            proof {
                assert(succ_bounded(succs@[k as int]@, st, parent@));
                assert(action@ == succs@[k as int]@);
                assert(entry_ok((npos, (t + 1) as usize, action), tl.timeline@[0]@, self.ship));
            }
            let mut keep = true;
            let ghost pre_entries = self.entries@;
            match self.find(npos, t + 1) {
                Some(j) => {
                    let prev_cost = {
                        let e = &self.entries[j];
                        e.2.cost
                    };
                    if ncost < prev_cost {
                        let ghost pre_map = *self;
                        self.entries.set(j, (npos, t + 1, action));
                        proof {
                            assert forall|q: int|
                                0 <= q < self.entries@.len() implies entry_ok(
                                (#[trigger] self.entries@[q]),
                                tl.timeline@[0]@,
                                self.ship,
                            ) by {
                                if q != j as int {
                                    assert(self.entries@[q] == pre_entries[q]);
                                }
                            }
                            lemma_at_node_after_set(pre_map, *self, j as int, npos, (t + 1) as usize, ncost);
                        }
                    } else {
                        keep = false;
                    }
                },
                None => {
                    let ghost pre_map = *self;
                    self.entries.push((npos, t + 1, action));
                    proof {
                        assert forall|q: int|
                            0 <= q < self.entries@.len() implies entry_ok(
                            (#[trigger] self.entries@[q]),
                            tl.timeline@[0]@,
                            self.ship,
                        ) by {
                            if q < self.entries@.len() - 1 {
                                assert(self.entries@[q] == pre_entries[q]);
                            }
                        }
                        lemma_at_node_after_push(pre_map, *self, npos, (t + 1) as usize, ncost);
                    }
                },
            }
            proof {
                assert((self.at_node(npos, (t + 1) as usize) matches Some(c) && c.cost <= ncost));
            }
            if keep {
                proof {
                    let succs_spec = tl.timeline@[t as int + 1]@.spec_apply_merged(
                        parent@,
                    ).spec_successors(parent@, allow_mine, true);
                    assert(succs@.map_values(|a: MergedAction| a@)[k as int] == succs@[k as int]@);
                    assert(succs_spec[k as int].pos == npos && succs_spec[k as int].cost == ncost);
                    assert(expanded_from(*tl, parent@, allow_mine, t, npos, ncost));
                }
                out.push(((npos, t + 1, ncost), crate::cost::STEP_WEIGHT + marginal));
            }
            k = k + 1;
        }
        out
    }

    /// What the goal test accepts: the lookahead budget is exhausted, or
    /// the unit's stored candidate stands on its target with either the
    /// game clock spent or a nearly full load.
    pub open spec fn spec_goal(
        self,
        tl: Timeline,
        key: (Position, usize, i64),
        target: (Position, usize),
        max_lookahead: usize,
    ) -> bool {
        let pos = key.0;
        let t = key.1;
        if t >= max_lookahead {
            true
        } else {
            match self.at_node(pos, t) {
                None => false,
                Some(a) => {
                    let si = if t < tl.timeline@.len() {
                        t as int
                    } else {
                        tl.timeline@.len() - 1
                    };
                    let st = tl.timeline@[si];
                    let at_target = pos == target.0 && t >= target.1;
                    let full = a.halite + a.returned + TARGET_DELTA
                        >= st.constants.max_halite;
                    let time_limit = t >= st@.turns_remaining_spec();
                    (time_limit || full) && at_target
                },
            }
        }
    }

    /// The goal test: accept once the lookahead budget is exhausted, or once
    /// the unit stands on its target with either the game clock spent or a
    /// nearly full load.
    pub fn is_goal(
        &self,
        tl: &Timeline,
        key: (Position, usize, i64),
        target: (Position, usize),
        max_lookahead: usize,
    ) -> (r: bool)
        requires
            tl.wf(),
            self.wf(tl.timeline@[0]@),
        ensures
            r == self.spec_goal(*tl, key, target, max_lookahead),
    {
        let (pos, t, _) = key;
        if t >= max_lookahead {
            return true;
        }
        let idx = match self.find(pos, t) {
            Some(i) => i,
            None => {
                return false;
            },
        };
        proof {
            let kc = choose|k: int|
                0 <= k < self.entries@.len() && (#[trigger] self.entries@[k]).0 == pos
                    && self.entries@[k].1 == t;
            if kc < idx as int {
                assert(!(self.entries@[kc].0 == self.entries@[idx as int].0 && self.entries@[
                    kc
                ].1 == self.entries@[idx as int].1));
            } else if (idx as int) < kc {
                assert(!(self.entries@[idx as int].0 == self.entries@[kc].0 && self.entries@[
                    idx as int
                ].1 == self.entries@[kc].1));
            }
            assert(self.at_node(pos, t) == Some(self.entries@[idx as int].2));
        }
        let si = if t < tl.timeline.len() {
            t
        } else {
            tl.timeline.len() - 1
        };
        let state = &tl.timeline[si];
        let turns_remaining = state.turns_remaining();
        let at_target = pos.x == target.0.x && pos.y == target.0.y && t >= target.1;
        let (hal, returned) = {
            let e = &self.entries[idx];
            (e.2.halite, e.2.returned)
        };
        let total = hal + returned;
        let full_halite = total + TARGET_DELTA >= state.constants.max_halite;
        let time_limit = t >= turns_remaining;
        (time_limit || full_halite) && at_target
    }
}

impl Timeline {
    /// The guide's value: the remaining steps to the target (at least the
    /// target's earliest arrival offset, clamped to the search range),
    /// weighted as whole turns, plus one full load and the accumulated
    /// pricing (clamped to the range one search can produce).
    pub open spec fn spec_heuristic(self, key: (Position, usize, i64), target: (Position, usize)) -> int {
        let t = key.1;
        let si = if t < self.timeline@.len() {
            t as int
        } else {
            self.timeline@.len() - 1
        };
        let d0 = self.timeline@[si]@.dist_spec(key.0, target.0);
        let tt = if target.1 <= 0x1000 {
            target.1 as int
        } else {
            0x1000
        };
        let d = if d0 >= tt {
            d0
        } else {
            tt
        };
        let acc = if key.2 > 0x1_0000_0000_0000 {
            0x1_0000_0000_0000
        } else if key.2 < -0x1_0000_0000_0000 {
            -0x1_0000_0000_0000
        } else {
            key.2 as int
        };
        d * (crate::cost::STEP_WEIGHT as int) + self.constants.max_halite + acc
    }

    /// The guide of the search: the steps still needed to reach the target,
    /// weighted as whole turns, plus the cargo still missing net of the
    /// value already accumulated.
    pub fn heuristic(&self, key: (Position, usize, i64), target: (Position, usize)) -> (r: i64)
        requires
            self.wf(),
        ensures
            r == self.spec_heuristic(key, target),
    {
        let (pos, t, acc) = key;
        let si = if t < self.timeline.len() {
            t
        } else {
            self.timeline.len() - 1
        };
        let dist0 = {
            let state = &self.timeline[si];
            state.calculate_distance(pos, target.0)
        };
        let tgt_t = if target.1 <= 0x1000 {
            target.1
        } else {
            0x1000
        };
        let dist = if dist0 >= tgt_t {
            dist0
        } else {
            tgt_t
        };
        proof {
            assert(dist0 <= 0x2000);
        }
        let acc_clamped = if acc > 0x1_0000_0000_0000i64 {
            0x1_0000_0000_0000i64
        } else if acc < -0x1_0000_0000_0000i64 {
            -0x1_0000_0000_0000i64
        } else {
            acc
        };
        (dist as i64) * crate::cost::STEP_WEIGHT + (self.constants.max_halite as i64)
            + acc_clamped
    }
}

/// Relies on `pathfinding::directed::astar::astar`: it searches from the
/// start node using the given successor, guide and goal closures, and when
/// it finds a goal node it returns the node path from the start node to it,
/// both ends included. Each closure only calls one verified method of this
/// crate; the working map is threaded through a local `RefCell` because the
/// search holds all three closures at once and calls them one at a time,
/// and each method's postconditions re-establish the others' preconditions
/// between calls. Nothing more is taken from the result: the caller
/// re-validates every node of the returned path against the working map,
/// so only well-formed candidates of the searched unit ever reach the
/// timeline.
#[verifier::external_body]
fn astar_search(
    tl: &Timeline,
    merged: &mut MergedMap,
    start_pos: Position,
    start_t: usize,
    start_cost: i64,
    target: (Position, usize),
    max_lookahead: usize,
) -> (r: Option<Vec<(Position, usize, i64)>>)
    requires
        tl.wf(),
        old(merged).wf(tl.timeline@[0]@),
        max_lookahead <= 0x1000,
    ensures
        final(merged).wf(tl.timeline@[0]@),
        final(merged).ship == old(merged).ship,
        r matches Some(path) ==> path@.len() >= 1 && path@[0] == (start_pos, start_t, start_cost),
{
    let cell = core::cell::RefCell::new(core::mem::replace(
        merged,
        MergedMap { entries: Vec::new(), ship: merged.ship },
    ));
    let res = pathfinding::directed::astar::astar(
        &(start_pos, start_t, start_cost),
        |k: &(Position, usize, i64)| cell.borrow_mut().expand(tl, *k, max_lookahead),
        |k: &(Position, usize, i64)| tl.heuristic(*k, target),
        |k: &(Position, usize, i64)| cell.borrow().is_goal(tl, *k, target, max_lookahead),
    );
    *merged = cell.into_inner();
    res.map(|(p, _)| p)
}

/// Writing recorded cell deltas keeps the board array's length and its
/// per-cell bound.
proof fn lemma_apply_mined_bounded(
    map: Seq<usize>,
    mined: Seq<(Position, usize)>,
    w: int,
    h: int,
)
    requires
        1 <= w <= 0x1000,
        1 <= h <= 0x1000,
        map.len() == w * h,
        forall|i: int| 0 <= i < map.len() ==> #[trigger] map[i] <= 0x10000,
        forall|i: int|
            0 <= i < mined.len() ==> pos_on_board((#[trigger] mined[i]).0, w, h) && mined[i].1
                <= 0x10000,
    ensures
        StateModel::apply_mined_seq(map, mined, w).len() == map.len(),
        forall|i: int|
            0 <= i < StateModel::apply_mined_seq(map, mined, w).len()
                ==> #[trigger] StateModel::apply_mined_seq(map, mined, w)[i] <= 0x10000,
    decreases mined.len(),
{
    if mined.len() == 0 {
    } else {
        lemma_apply_mined_bounded(map, mined.drop_last(), w, h);
        lemma_cell_index_in_range(mined.last().0, w, h);
    }
}

/// The cells around a candidate's implied position stay on the board, and
/// the cargo, deposit and pricing of every successor stay within one step's
/// growth of its parent's.
proof fn lemma_succs_bounded(st: StateModel, pm: MergedModel, allow_mine: bool, inspire: bool)
    requires
        1 <= st.width <= 0x1000,
        1 <= st.height <= 0x1000,
        st.constants.wf(),
        st.map.len() == st.area(),
        forall|i: int| 0 <= i < st.map.len() ==> #[trigger] st.map[i] <= 0x10000,
        pos_on_board(pm.pos, st.width as int, st.height as int),
        pm.halite <= st.constants.max_halite,
        -0x4000_0000_0000 <= pm.cost <= 0x4000_0000_0000,
        pm.returned <= 0x1000_0000,
        forall|i: int|
            0 <= i < pm.mined.len() ==> pos_on_board(
                (#[trigger] pm.mined[i]).0,
                st.width as int,
                st.height as int,
            ) && pm.mined[i].1 <= 0x10000,
    ensures
        forall|k: int|
            0 <= k < st.spec_successors(pm, allow_mine, inspire).len() ==> succ_bounded(
                #[trigger] st.spec_successors(pm, allow_mine, inspire)[k],
                st,
                pm,
            ),
{
    let succs = st.spec_successors(pm, allow_mine, inspire);
    assert forall|k: int| 0 <= k < succs.len() implies succ_bounded(
        #[trigger] succs[k],
        st,
        pm,
    ) by {
        let cardinals = seq![
            Direction::North,
            Direction::South,
            Direction::East,
            Direction::West,
        ];
        if st.turns_remaining_spec() > 0 {
            let moves = if pm.halite >= crate::state::spec_move_cost(
                st.cell_spec(pm.pos),
                st.constants,
            ) {
                st.collect_move_succs(pm, cardinals)
            } else {
                Seq::<MergedModel>::empty()
            };
            if k < moves.len() {
                lemma_collect_bounded(st, pm, cardinals);
                assert(succ_bounded(moves[k], st, pm));
            } else {
                assert(succs[k] == st.spec_mine_succ(pm, inspire));
                lemma_mine_succ_bounded(st, pm, inspire);
            }
        }
    }
}

/// What one search step may do to a candidate's fields.
pub open spec fn succ_bounded(c: MergedModel, st: StateModel, pm: MergedModel) -> bool {
    &&& pos_on_board(c.pos, st.width as int, st.height as int)
    &&& c.halite <= st.constants.max_halite
    &&& c.returned <= pm.returned + 0x10000
    &&& pm.cost - 0x200000 <= c.cost <= pm.cost + 0x200000
    &&& c.ship_id == pm.ship_id
    &&& forall|i: int|
        0 <= i < c.mined.len() ==> pos_on_board(
            (#[trigger] c.mined[i]).0,
            st.width as int,
            st.height as int,
        ) && c.mined[i].1 <= 0x10000
}

/// A normalized position is on the board.
proof fn lemma_norm_on_board(st: StateModel, p: Position)
    requires
        1 <= st.width <= 0x1000,
        1 <= st.height <= 0x1000,
    ensures
        pos_on_board(st.norm_spec(p), st.width as int, st.height as int),
{
    vstd::arithmetic::div_mod::lemma_mod_bound(p.x as int, st.width as int);
    vstd::arithmetic::div_mod::lemma_mod_bound(p.y as int, st.height as int);
}

proof fn lemma_move_succ_bounded(st: StateModel, pm: MergedModel, d: Direction)
    requires
        1 <= st.width <= 0x1000,
        1 <= st.height <= 0x1000,
        st.constants.wf(),
        st.map.len() == st.area(),
        forall|i: int| 0 <= i < st.map.len() ==> #[trigger] st.map[i] <= 0x10000,
        pos_on_board(pm.pos, st.width as int, st.height as int),
        pm.halite <= st.constants.max_halite,
        -0x4000_0000_0000 <= pm.cost <= 0x4000_0000_0000,
        pm.returned <= 0x1000_0000,
        forall|i: int|
            0 <= i < pm.mined.len() ==> pos_on_board(
                (#[trigger] pm.mined[i]).0,
                st.width as int,
                st.height as int,
            ) && pm.mined[i].1 <= 0x10000,
        pm.halite >= crate::state::spec_move_cost(st.cell_spec(pm.pos), st.constants),
    ensures
        st.spec_move_succ(pm, d) matches Some(c) ==> succ_bounded(c, st, pm),
{
    lemma_cell_index_in_range(pm.pos, st.width as int, st.height as int);
    let np = st.neighbor(pm.pos, d);
    lemma_norm_on_board(st, crate::grid::offset_spec(pm.pos, d));
    let cell = st.cell_spec(pm.pos);
    let cost = crate::state::spec_move_cost(cell, st.constants);
    assert(0 <= cost <= cell) by (nonlinear_arith)
        requires
            cost == cell / (st.constants.move_cost_ratio as int),
            1 <= st.constants.move_cost_ratio,
            0 <= cell <= 0x10000,
    ;
}

proof fn lemma_mine_succ_bounded(st: StateModel, pm: MergedModel, inspire: bool)
    requires
        1 <= st.width <= 0x1000,
        1 <= st.height <= 0x1000,
        st.constants.wf(),
        st.map.len() == st.area(),
        forall|i: int| 0 <= i < st.map.len() ==> #[trigger] st.map[i] <= 0x10000,
        pos_on_board(pm.pos, st.width as int, st.height as int),
        pm.halite <= st.constants.max_halite,
        -0x4000_0000_0000 <= pm.cost <= 0x4000_0000_0000,
        pm.returned <= 0x1000_0000,
        forall|i: int|
            0 <= i < pm.mined.len() ==> pos_on_board(
                (#[trigger] pm.mined[i]).0,
                st.width as int,
                st.height as int,
            ) && pm.mined[i].1 <= 0x10000,
    ensures
        succ_bounded(st.spec_mine_succ(pm, inspire), st, pm),
{
    lemma_cell_index_in_range(pm.pos, st.width as int, st.height as int);
    let cell = st.cell_spec(pm.pos);
    let insp = inspire && st.inspired_at(pm.pos);
    let mined = crate::state::spec_mined_amount(cell, pm.halite as int, insp, st.constants);
    assert(0 <= mined <= 0x200000) by {
        let base = crate::state::spec_div_ceil(cell, st.constants.extract_ratio as int);
        assert(0 <= base <= cell) by (nonlinear_arith)
            requires
                base == (cell + st.constants.extract_ratio - 1) / (
                st.constants.extract_ratio as int),
                1 <= st.constants.extract_ratio,
                0 <= cell <= 0x10000,
        ;
        assert(0 <= base * (st.constants.inspired_bonus_multiplier as int) <= 0x100000) by (
        nonlinear_arith)
            requires 0 <= base <= 0x10000, 0 <= st.constants.inspired_bonus_multiplier <= 0x10,
        ;
    }
    let c = st.spec_mine_succ(pm, inspire);
    assert(c.mined == pm.mined.push((pm.pos, (cell - mined) as usize)));
    assert forall|i: int|
        0 <= i < c.mined.len() implies pos_on_board(
        (#[trigger] c.mined[i]).0,
        st.width as int,
        st.height as int,
    ) && c.mined[i].1 <= 0x10000 by {
        if i < c.mined.len() - 1 {
            assert(c.mined[i] == pm.mined[i]);
        } else {
            assert(c.mined[i] == (pm.pos, (cell - mined) as usize));
        }
    }
}

proof fn lemma_collect_bounded(st: StateModel, pm: MergedModel, dirs: Seq<Direction>)
    requires
        pm.halite >= crate::state::spec_move_cost(st.cell_spec(pm.pos), st.constants),
        1 <= st.width <= 0x1000,
        1 <= st.height <= 0x1000,
        st.constants.wf(),
        st.map.len() == st.area(),
        forall|i: int| 0 <= i < st.map.len() ==> #[trigger] st.map[i] <= 0x10000,
        pos_on_board(pm.pos, st.width as int, st.height as int),
        pm.halite <= st.constants.max_halite,
        -0x4000_0000_0000 <= pm.cost <= 0x4000_0000_0000,
        pm.returned <= 0x1000_0000,
        forall|i: int|
            0 <= i < pm.mined.len() ==> pos_on_board(
                (#[trigger] pm.mined[i]).0,
                st.width as int,
                st.height as int,
            ) && pm.mined[i].1 <= 0x10000,
    ensures
        forall|k: int|
            0 <= k < st.collect_move_succs(pm, dirs).len() ==> succ_bounded(
                #[trigger] st.collect_move_succs(pm, dirs)[k],
                st,
                pm,
            ),
    decreases dirs.len(),
{
    if dirs.len() == 0 {
    } else {
        lemma_collect_bounded(st, pm, dirs.drop_last());
        lemma_move_succ_bounded(st, pm, dirs.last());
        let rest = st.collect_move_succs(pm, dirs.drop_last());
        let whole = st.collect_move_succs(pm, dirs);
        assert forall|k: int| 0 <= k < whole.len() implies succ_bounded(
            #[trigger] whole[k],
            st,
            pm,
        ) by {
            if k < rest.len() {
                assert(whole[k] == rest[k]);
            }
        }
    }
}

/// What the search's goal test accepted of the route's final candidate:
/// either the lookahead budget was exhausted at its offset, or it stands on
/// the target cell no earlier than asked with either the game clock spent
/// or a nearly full load.
pub open spec fn route_goal(
    tl: Timeline,
    a: MergedModel,
    t: int,
    target: (Position, usize),
    max_lookahead: int,
) -> bool {
    let si = if t < tl.timeline@.len() {
        t
    } else {
        tl.timeline@.len() - 1
    };
    let st = tl.timeline@[si];
    t >= max_lookahead || ((t >= st@.turns_remaining_spec() || a.halite + a.returned
        + TARGET_DELTA >= st.constants.max_halite) && a.pos == target.0 && t >= target.1)
}

impl Timeline {
    /// Search for a minimum-cost candidate path for one unit from its
    /// implied (cell, offset) node toward a target, within the lookahead
    /// bound. Every node of the returned path is re-validated against the
    /// working map, so the result is a chain of well-formed candidates of
    /// the searched unit starting from the given one.
    pub fn path(
        &mut self,
        initial_action: MergedAction,
        start: usize,
        target: (Position, usize),
        max_lookahead: usize,
    ) -> (r: Option<Vec<MergedAction>>)
        requires
            old(self).wf(),
            start <= 0x1000,
            max_lookahead <= 0x1000,
            entry_ok(
                (initial_action.pos, start, initial_action),
                old(self).timeline@[0]@,
                initial_action.ship_id,
            ),
        ensures
            final(self).wf(),
            final(self).timeline@.len() >= old(self).timeline@.len(),
            forall|i: int|
                0 <= i < old(self).timeline@.len() ==> #[trigger] final(self).timeline@[i] == old(
                    self,
                ).timeline@[i],
            (*final(self) == Timeline { timeline: final(self).timeline, ..*old(self) }),
            // A returned route is validated node by node: it starts where
            // the searched unit stands, advances one turn offset per entry,
            // each step moves at most one cell, and its final candidate
            // satisfies the goal test. The search itself decides whether a
            // route comes back at all, so success is not owed on any input.
            r matches Some(path) ==> 1 <= path@.len() <= 0x1001 && (forall|k: int|
                0 <= k < path@.len() ==> final(self).timeline@[0]@.merged_wf(
                    (#[trigger] path@[k])@,
                ) && path@[k].ship_id == initial_action.ship_id),
            r matches Some(path) ==> path@[0].pos == initial_action.pos,
            r matches Some(path) ==> (forall|k: int|
                1 <= k < path@.len() ==> crate::grid::toroidal_dist(
                    (#[trigger] path@[k - 1]).pos,
                    path@[k].pos,
                    final(self).board_w(),
                    final(self).board_h(),
                ) <= 1),
            r matches Some(path) ==> route_goal(
                *final(self),
                path@.last()@,
                start + path@.len() - 1,
                target,
                max_lookahead as int,
            ),
    {
        self.extend_to(start);
        let ghost mid1 = *self;
        proof {
            assert(forall|i: int|
                0 <= i < old(self).timeline@.len() ==> #[trigger] self.timeline@[i] == old(
                    self,
                ).timeline@[i]);
        }
        let ext = if max_lookahead <= 0xffe {
            max_lookahead + 2
        } else {
            0x1000
        };
        self.extend_to(ext);
        proof {
            assert forall|i: int|
                0 <= i < old(self).timeline@.len() implies #[trigger] self.timeline@[i] == old(
                self,
            ).timeline@[i] by {
                assert(self.timeline@[i] == mid1.timeline@[i]);
            }
        }
        let ship = initial_action.ship_id;
        let start_pos = initial_action.pos;
        let start_cost = initial_action.cost;
        let mut merged = MergedMap { entries: Vec::new(), ship };
        merged.entries.push((start_pos, start, initial_action));
        let found = astar_search(
            &*self,
            &mut merged,
            start_pos,
            start,
            start_cost,
            target,
            max_lookahead,
        );
        match found {
            None => None,
            Some(keys) => {
                let bw = {
                    let st0 = &self.timeline[0];
                    st0.width as i32
                };
                let bh = {
                    let st0 = &self.timeline[0];
                    st0.height as i32
                };
                let mut out: Vec<MergedAction> = Vec::new();
                let mut k: usize = 0;
                while k < keys.len()
                    invariant
                        self.wf(),
                        self.timeline@.len() >= old(self).timeline@.len(),
                        forall|i: int|
                            0 <= i < old(self).timeline@.len() ==> #[trigger] self.timeline@[i]
                                == old(self).timeline@[i],
                        (*self == Timeline { timeline: self.timeline, ..*old(self) }),
                        merged.wf(self.timeline@[0]@),
                        merged.ship == ship,
                        bw == self.board_w(),
                        bh == self.board_h(),
                        start <= 0x1000,
                        keys@.len() >= 1,
                        keys@[0] == (start_pos, start, start_cost),
                        k <= keys@.len(),
                        k <= 0x1001,
                        out@.len() == k,
                        forall|j: int|
                            0 <= j < out@.len() ==> self.timeline@[0]@.merged_wf(
                                (#[trigger] out@[j])@,
                            ) && out@[j].ship_id == ship && out@[j].pos == keys@[j].0
                                && keys@[j].1 == start + j,
                        forall|j: int|
                            1 <= j < out@.len() ==> crate::grid::toroidal_dist(
                                (#[trigger] out@[j - 1]).pos,
                                out@[j].pos,
                                self.board_w(),
                                self.board_h(),
                            ) <= 1,
                        forall|j: int|
                            0 <= j < out@.len() ==> ((#[trigger] merged.at_node(
                                keys@[j].0,
                                keys@[j].1,
                            )) matches Some(stored) && stored@ == out@[j]@),
                    decreases keys@.len() - k,
                {
                    if k > 0x1000 {
                        return None;
                    }
                    let (pos, t, _) = keys[k];
                    if t != start + k {
                        return None;
                    }
                    match merged.find(pos, t) {
                        Some(i) => {
                            proof {
                                let kc = choose|c: int|
                                    0 <= c < merged.entries@.len() && (
                                    #[trigger] merged.entries@[c]).0 == pos && merged.entries@[
                                        c
                                    ].1 == t;
                                if kc < i as int {
                                    assert(!(merged.entries@[kc].0 == merged.entries@[
                                        i as int
                                    ].0 && merged.entries@[kc].1 == merged.entries@[i as int].1));
                                } else if (i as int) < kc {
                                    assert(!(merged.entries@[i as int].0 == merged.entries@[
                                        kc
                                    ].0 && merged.entries@[i as int].1 == merged.entries@[kc].1));
                                }
                                assert(merged.at_node(pos, t) == Some(
                                    merged.entries@[i as int].2,
                                ));
                            }
                            let a = {
                                let e = &merged.entries[i];
                                e.2.duplicate()
                            };
                            proof {
                                assert(a@ == merged.entries@[i as int].2@);
                                assert(entry_ok(
                                    merged.entries@[i as int],
                                    self.timeline@[0]@,
                                    ship,
                                ));
                                assert(a.pos == pos && a.ship_id == ship);
                                assert(self.timeline@[0]@.merged_wf(a@));
                            }
                            if k > 0 {
                                let prev_pos = out[k - 1].pos;
                                proof {
                                    assert(self.timeline@[0]@.merged_wf(out@[k - 1]@));
                                }
                                let step = crate::grid::toroidal_distance(prev_pos, a.pos, bw, bh);
                                if step > 1 {
                                    return None;
                                }
                            }
                            let ghost pre_out = out@;
                            out.push(a);
                            proof {
                                assert forall|j: int|
                                    0 <= j < out@.len() implies self.timeline@[0]@.merged_wf(
                                    (#[trigger] out@[j])@,
                                ) && out@[j].ship_id == ship && out@[j].pos == keys@[j].0
                                    && keys@[j].1 == start + j by {
                                    if j < out@.len() - 1 {
                                        assert(out@[j] == pre_out[j]);
                                        assert(self.timeline@[0]@.merged_wf(pre_out[j]@));
                                    } else {
                                        assert(out@[j] == a);
                                        assert(keys@[j] == (pos, t, keys@[j].2));
                                    }
                                }
                            }
                        },
                        None => {
                            return None;
                        },
                    }
                    k = k + 1;
                }
                // The final candidate must satisfy the goal test.
                let last_key = keys[keys.len() - 1];
                let goal_ok = merged.is_goal(&*self, last_key, target, max_lookahead);
                if !goal_ok {
                    return None;
                }
                proof {
                    let t = last_key.1 as int;
                    let a = out@.last()@;
                    assert(keys@[keys@.len() - 1] == last_key);
                    if t < max_lookahead {
                        let stored = merged.at_node(last_key.0, last_key.1);
                        assert(stored matches Some(s) && s@ == a);
                        assert(route_goal(*self, a, t, target, max_lookahead as int));
                    }
                }
                Some(out)
            },
        }
    }

    /// Whether the game is so near its end that units head straight home.
    pub open spec fn end_game_spec(self) -> bool {
        let st0 = self.timeline@[0];
        st0@.turns_remaining_spec() <= (st0.width + st0.height) / 2
    }

    /// Whether the assignment step gave this unit a depot target.
    pub open spec fn has_target(self, id: ShipId) -> bool {
        exists|k: int|
            0 <= k < self.target_dropoffs@.len() && (#[trigger] self.target_dropoffs@[k]).0 == id
    }

    /// The depot target assigned to a unit, or the nearest depot once the
    /// game nears its end or no assignment exists. Falls back to the unit's
    /// own cell when the board has no depot at all.
    pub fn target_pos_t(&mut self, ship_id: ShipId, pos: Position) -> (r: (Position, usize))
        requires
            old(self).wf(),
            pos_on_board(pos, old(self).board_w(), old(self).board_h()),
        ensures
            final(self).wf(),
            (*final(self) == *old(self)),
            pos_on_board(r.0, final(self).board_w(), final(self).board_h()),
            r.1 <= 0x1000,
            !old(self).end_game_spec() && old(self).has_target(ship_id) ==> exists|k: int|
                0 <= k < old(self).target_dropoffs@.len() && old(self).target_dropoffs@[k] == (
                ship_id,
                r,
            ),
            (old(self).end_game_spec() || !old(self).has_target(ship_id)) ==> r.1 == 0 && ((
            old(self).timeline@[0]@.dropoff_at(r.0) && forall|q: Position|
                old(self).timeline@[0]@.on_board(q) && #[trigger] old(
                    self,
                ).timeline@[0]@.dropoff_at(q) ==> old(self).timeline@[0]@.dist_spec(pos, r.0)
                    <= old(self).timeline@[0]@.dist_spec(pos, q)) || (r.0 == pos && (forall|
                q: Position,
            |
                old(self).timeline@[0]@.on_board(q) ==> !#[trigger] old(
                    self,
                ).timeline@[0]@.dropoff_at(q)))),
    {
        let end_game = {
            let st = &self.timeline[0];
            st.end_game()
        };
        if !end_game {
            let mut k: usize = 0;
            while k < self.target_dropoffs.len()
                invariant
                    self.wf(),
                    !self.end_game_spec(),
                    k <= self.target_dropoffs@.len(),
                    forall|j: int|
                        0 <= j < k ==> (#[trigger] self.target_dropoffs@[j]).0 != ship_id,
                decreases self.target_dropoffs@.len() - k,
            {
                let e = self.target_dropoffs[k];
                if e.0.0 == ship_id.0 {
                    proof {
                        assert(self.target_dropoffs@[k as int].0 == ship_id);
                        assert(self.has_target(ship_id));
                    }
                    return e.1;
                }
                k = k + 1;
            }
        }
        let st = &self.timeline[0];
        let mut found: Option<Position> = None;
        proof {
            assert(st@.wf());
            assert(self.board_w() * self.board_h() <= 0x1000000) by (nonlinear_arith)
                requires 1 <= self.board_w() <= 0x1000, 1 <= self.board_h() <= 0x1000,
        ;
        }
        let area = st.width * st.height;
        let mut c: usize = 0;
        while c < area
            invariant
                self.wf(),
                st == &self.timeline@[0],
                area == self.board_w() * self.board_h(),
                area <= 0x1000000,
                c <= area,
                match found {
                    Some(p) => pos_on_board(p, self.board_w(), self.board_h()) && st@.dropoff_at(
                        p,
                    ),
                    None => forall|j: int| 0 <= j < c ==> !(#[trigger] st@.dropoffs[j]),
                },
            decreases area - c,
        {
            proof {
                lemma_pos_of_index(c as int, self.board_w(), self.board_h());
            }
            let pcell = Position { x: (c % st.width) as i32, y: (c / st.width) as i32 };
            if st.is_dropoff(pcell) && found.is_none() {
                found = Some(pcell);
            }
            c = c + 1;
        }
        proof {
            if found is None {
                assert forall|q: Position|
                    st@.on_board(q) implies !(#[trigger] st@.dropoff_at(q)) by {
                    lemma_cell_index_in_range(q, self.board_w(), self.board_h());
                }
            }
        }
        match found {
            Some(_) => {
                proof {
                    let p = found->Some_0;
                    assert(exists|q: Position|
                        st@.on_board(q) && #[trigger] st@.dropoff_at(q)) by {
                        assert(st@.on_board(p) && st@.dropoff_at(p));
                    }
                }
                let nearest = st.nearest_dropoff(pos);
                (nearest, 0)
            },
            None => (pos, 0),
        }
    }

    /// Whether spawning a new unit now pays off: the bank covers the cost
    /// and the reserve, the home cell is free next turn, and a profitable
    /// route exists from it.
    pub fn spawn_ship(&mut self) -> (r: bool)
        requires
            old(self).wf(),
        ensures
            final(self).wf(),
            // A spawn is approved only when the bank covers the unit's cost
            // on top of the construction reserve and the home cell is free
            // at the next offset; a route must also exist, which the search
            // decides, so approval is not owed on any input.
            r ==> final(self).timeline@[0].halite >= final(self).constants.ship_cost
                + final(self).save,
            r ==> final(self).timeline@.len() > 1 && (final(self).timeline@[1]@.occupant(
                old(self).spawn_action.pos,
            ) is None),
            old(self).timeline@[0].halite < old(self).constants.ship_cost + old(self).save
                ==> !r,
    {
        let spawn_action = self.spawn_action.duplicate();
        let target = (spawn_action.pos, 0);
        self.extend_to(1);
        let taken = {
            let st1 = &self.timeline[1];
            proof {
                lemma_cell_index_in_range(
                    spawn_action.pos,
                    self.board_w(),
                    self.board_h(),
                );
                assert(st1@.on_board(spawn_action.pos));
            }
            st1.occupant_at(spawn_action.pos).is_some()
        };
        let can_afford = {
            let st0 = &self.timeline[0];
            st0.halite >= self.constants.ship_cost && st0.halite - self.constants.ship_cost
                >= self.save
        };
        if !can_afford || taken {
            return false;
        }
        proof {
            assert(entry_ok(
                (spawn_action.pos, 1, spawn_action),
                self.timeline@[0]@,
                spawn_action.ship_id,
            ));
            assert(self.timeline@[1]@.occupant(old(self).spawn_action.pos) is None);
        }
        let ghost pre = *self;
        let found = self.path(spawn_action, 1, target, MIN_LOOKAHEAD).is_some();
        proof {
            assert(self.timeline@[0] == pre.timeline@[0]);
            assert(self.timeline@[1] == pre.timeline@[1]);
            assert(self.save == pre.save);
        }
        found
    }

    /// Whether, at offset `i`, the bank plus a nearly full unit and the
    /// chosen cell's content would cover a depot's construction cost.
    pub open spec fn builds_at(self, pos: Position, i: int) -> bool {
        let st = self.timeline@[i];
        st.halite + st@.cell_spec(pos) + (if self.constants.max_halite >= TARGET_DELTA {
            self.constants.max_halite - TARGET_DELTA
        } else {
            0
        }) >= self.constants.dropoff_cost
    }

    /// The first offset at which the construction becomes affordable, or
    /// one past the lookahead when no known offset qualifies.
    pub fn earliest_build(&self, pos: Position) -> (r: usize)
        requires
            self.wf(),
            pos_on_board(pos, self.board_w(), self.board_h()),
        ensures
            r <= 0x28001,
            (exists|j: int|
                0 <= j < self.timeline@.len() && #[trigger] self.builds_at(pos, j)) ==> r
                < self.timeline@.len() && self.builds_at(pos, r as int) && (forall|j: int|
                0 <= j < r ==> !#[trigger] self.builds_at(pos, j)),
            !(exists|j: int|
                0 <= j < self.timeline@.len() && #[trigger] self.builds_at(pos, j)) ==> r
                == MAX_LOOKAHEAD + 1,
    {
        let max_ship = if self.constants.max_halite >= TARGET_DELTA {
            self.constants.max_halite - TARGET_DELTA
        } else {
            0
        };
        let mut i: usize = 0;
        let n = self.timeline.len();
        while i < n
            invariant
                self.wf(),
                pos_on_board(pos, self.board_w(), self.board_h()),
                n == self.timeline@.len(),
                i <= n,
                max_ship <= 0x10000,
                max_ship == (if self.constants.max_halite >= TARGET_DELTA {
                    self.constants.max_halite - TARGET_DELTA
                } else {
                    0
                }),
                forall|j: int| 0 <= j < i ==> !#[trigger] self.builds_at(pos, j),
            decreases n - i,
        {
            let st = &self.timeline[i];
            proof {
                assert(st@.wf());
                assert(st.width == self.timeline@[0].width && st.height == self.timeline@[
                    0
                ].height);
                assert(st@.on_board(pos));
            }
            let cell = st.halite(pos);
            let bank = st.halite;
            if bank > usize::MAX - cell - max_ship || bank + cell + max_ship
                >= self.constants.dropoff_cost {
                proof {
                    assert(self.builds_at(pos, i as int));
                }
                return i;
            }
            proof {
                assert(!self.builds_at(pos, i as int));
            }
            i = i + 1;
        }
        proof {
            if exists|j: int| 0 <= j < self.timeline@.len() && #[trigger] self.builds_at(pos, j) {
                let j = choose|j: int|
                    0 <= j < self.timeline@.len() && #[trigger] self.builds_at(pos, j);
                assert(false);
            }
        }
        MAX_LOOKAHEAD + 1
    }
}

impl Timeline {
    /// Convert a candidate path into plan actions by diffing consecutive
    /// positions, ending with a depot conversion when asked.
    fn path_to_actions(&mut self, path: &Vec<MergedAction>, convert_last: bool) -> (r: VecDeque<
        Action,
    >)
        requires
            old(self).wf(),
        ensures
            final(self).wf(),
            (*final(self) == *old(self)),
    {
        let mut actions: VecDeque<Action> = VecDeque::new();
        let n = path.len();
        if n == 0 {
            return actions;
        }
        let lim = n - 1;
        let mut w: usize = 0;
        while w < lim
            invariant
                self.wf(),
                (*self == *old(self)),
                lim < path@.len(),
                w <= lim,
            decreases lim - w,
        {
            let prev_pos = path[w].pos;
            let next = &path[w + 1];
            let dir = {
                let st0 = &self.timeline[0];
                st0.get_dir(prev_pos, next.pos)
            };
            let a = Action::new(next.ship_id, dir, next.inspired, next.risk, false);
            actions.push_back(a);
            w = w + 1;
        }
        if convert_last && actions.len() > 0 {
            let tail = actions.pop_back().unwrap();
            let conv = Action::new(tail.ship_id, Direction::Still, tail.inspired, tail.risk, true);
            actions.push_back(tail);
            actions.push_back(conv);
        }
        actions
    }

    /// Write a committed candidate path into the timeline slots it touches.
    fn apply_path(&mut self, path: &Vec<MergedAction>, start: usize)
        requires
            old(self).wf(),
            start <= 0x1000,
            forall|k: int|
                0 <= k < path@.len() ==> old(self).timeline@[0]@.merged_wf(
                    (#[trigger] path@[k])@,
                ),
            path@.len() <= 0x1001,
        ensures
            final(self).wf(),
            final(self).timeline@[0].width == old(self).timeline@[0].width,
            final(self).timeline@[0].height == old(self).timeline@[0].height,
            final(self).timeline@[0].constants == old(self).timeline@[0].constants,
            (*final(self) == Timeline { timeline: final(self).timeline, ..*old(self) }),
    {
        let mut k: usize = 0;
        while k < path.len()
            invariant
                self.wf(),
                self.timeline@[0].width == old(self).timeline@[0].width,
                self.timeline@[0].height == old(self).timeline@[0].height,
                self.timeline@[0].constants == old(self).timeline@[0].constants,
                (*self == Timeline { timeline: self.timeline, ..*old(self) }),
                start <= 0x1000,
                path@.len() <= 0x1001,
                forall|j: int|
                    0 <= j < path@.len() ==> old(self).timeline@[0]@.merged_wf(
                        (#[trigger] path@[j])@,
                    ),
                k <= path@.len(),
            decreases path@.len() - k,
        {
            let t = start + k;
            if t > 0x1000 {
                return ;
            }
            self.extend_to(t);
            let ghost pre = *self;
            let st = &mut self.timeline[t];
            proof {
                assert(pre.timeline@[t as int]@.wf());
                assert(pre.timeline@[t as int].width == pre.timeline@[0].width
                    && pre.timeline@[t as int].height == pre.timeline@[0].height
                    && pre.timeline@[t as int].constants == pre.timeline@[0].constants);
                assert(pre.timeline@[0]@.merged_wf(path@[k as int]@));
                assert(st@.merged_wf(path@[k as int]@));
            }
            if st.contains_ship(path[k].ship_id) || st.ships.len() < 0x1000 {
                st.apply_merged_mut(&path[k]);
            }
            proof {
                assert(st@.wf());
            }
            k = k + 1;
            proof {
                assert forall|i: int|
                    0 <= i < self.timeline@.len() implies (#[trigger] self.timeline@[i])@.wf()
                    && self.timeline@[i].width == self.timeline@[0].width && self.timeline@[
                    i
                ].height == self.timeline@[0].height && self.timeline@[i].constants
                    == self.timeline@[0].constants && self.timeline@[i].start == self.timeline@[
                    0
                ].start && self.timeline@[i].turn == self.timeline@[0].turn + i by {
                    if i != t as int {
                        assert(self.timeline@[i] == pre.timeline@[i]);
                    }
                }
                assert(self.wf());
            }
        }
    }

    /// Plan one unit: search toward its assigned target, write the found
    /// path into the timeline, and append the route's actions to this
    /// unit's plan (or file them as its plan). No other unit's plan is
    /// touched, and an existing plan of this unit only ever grows, keeping
    /// its committed prefix.
    pub fn path_ship(&mut self, initial_action: MergedAction, start: usize, paths: &mut PlanBook)
        requires
            old(self).wf(),
            old(paths).wf(),
            start <= 0x1000,
            entry_ok(
                (initial_action.pos, start, initial_action),
                old(self).timeline@[0]@,
                initial_action.ship_id,
            ),
        ensures
            final(self).wf(),
            final(paths).wf(),
            final(self).timeline@[0].width == old(self).timeline@[0].width,
            final(self).timeline@[0].height == old(self).timeline@[0].height,
            final(self).timeline@[0].constants == old(self).timeline@[0].constants,
            final(self).nav == old(self).nav,
            old(paths).plans@.len() <= final(paths).plans@.len() <= old(paths).plans@.len() + 1,
            final(paths).plans@.len() == old(paths).plans@.len() + 1 ==> final(paths).plans@.last().0
                == initial_action.ship_id,
            forall|k: int|
                0 <= k < old(paths).plans@.len() && old(paths).plans@[k].0
                    != initial_action.ship_id ==> #[trigger] final(paths).plans@[k] == old(
                    paths,
                ).plans@[k],
            old(paths).has_plan(initial_action.ship_id) ==> ({
                let i = old(paths).plan_index(initial_action.ship_id);
                let q0 = old(paths).plans@[i].1@;
                &&& final(paths).plans@[i].0 == initial_action.ship_id
                &&& final(paths).plans@[i].1@.len() >= q0.len()
                &&& final(paths).plans@[i].1@.subrange(0, q0.len() as int) == q0
            }),
    {
        let ship_id = initial_action.ship_id;
        let ship_pos = initial_action.pos;
        let target = self.target_pos_t(ship_id, ship_pos);
        let found = self.path(initial_action, start, target, MAX_LOOKAHEAD);
        match found {
            Some(path) => {
                self.apply_path(&path, start);
                let actions = self.path_to_actions(&path, false);
                if actions.len() > 0 {
                    let ghost p0 = *paths;
                    let ghost more0 = actions@;
                    paths.extend_plan(ship_id, actions);
                    proof {
                        if p0.has_plan(ship_id) {
                            let i = p0.plan_index(ship_id);
                            let q0 = p0.plans@[i].1@;
                            assert(paths.plans@[i].1@ == q0 + more0);
                            assert(paths.plans@[i].1@.subrange(0, q0.len() as int) =~= q0);
                        }
                    }
                }
            },
            None => {
                proof {
                    if old(paths).has_plan(ship_id) {
                        let i = old(paths).plan_index(ship_id);
                        assert(paths.plans@[i].1@.subrange(
                            0,
                            old(paths).plans@[i].1@.len() as int,
                        ) =~= old(paths).plans@[i].1@);
                    }
                }
            },
        }
    }

    /// Try to commit a depot construction: pick the unplanned unit that can
    /// reach the chosen site soonest, route it there, and only if it arrives
    /// on the site with the construction affordable there (bank plus cargo
    /// plus cell content cover the cost), write the route into the timeline,
    /// convert the arrival state and record the plan, ending in a conversion
    /// step. On any other outcome no plan changes; at most the chosen unit's
    /// plan is filed or extended, and no other unit's plan entry moves.
    pub fn make_dropoff(&mut self, paths: &mut PlanBook)
        requires
            old(self).wf(),
            old(paths).wf(),
        ensures
            final(self).wf(),
            final(paths).wf(),
            old(paths).plans@.len() <= final(paths).plans@.len() <= old(paths).plans@.len() + 1,
            forall|k: int|
                0 <= k < old(paths).plans@.len() ==> (#[trigger] final(paths).plans@[k]).0 == old(
                    paths,
                ).plans@[k].0,
    {
        if self.unpathed.len() == 0 {
            return ;
        }
        let target = match self.prime {
            Some(p) => p,
            None => {
                return ;
            },
        };
        let t = self.earliest_build(target);
        // The unplanned unit that can reach the site soonest.
        let mut best: usize = 0;
        let mut best_key: usize = usize::MAX;
        let mut k: usize = 0;
        while k < self.unpathed.len()
            invariant
                self.wf(),
                pos_on_board(target, self.board_w(), self.board_h()),
                t <= 0x28001,
                k <= self.unpathed@.len(),
                best < self.unpathed@.len() || best == 0,
            decreases self.unpathed@.len() - k,
        {
            let (act_pos, act_start) = {
                let e = &self.unpathed[k];
                (e.0.pos, e.1)
            };
            let dist = {
                let st0 = &self.timeline[0];
                st0.calculate_distance(act_pos, target)
            };
            let tdist = if act_start > t {
                act_start - t
            } else {
                0
            };
            let key = dist + tdist;
            if key < best_key {
                best_key = key;
                best = k;
            }
            k = k + 1;
        }
        if best >= self.unpathed.len() {
            return ;
        }
        let ghost pre_un = self.unpathed@;
        let (initial_action, start) = {
            let e = self.unpathed.remove(best);
            e
        };
        proof {
            assert forall|q: int|
                0 <= q < self.unpathed@.len() implies self.timeline@[0]@.merged_wf(
                (#[trigger] self.unpathed@[q]).0@,
            ) && self.unpathed@[q].1 <= 0x1000 by {
                let q0 = if q < best as int {
                    q
                } else {
                    q + 1
                };
                assert(self.unpathed@[q] == pre_un[q0]);
            }
            assert(self.wf());
        }
        let ship_id = initial_action.ship_id;
        proof {
            assert(pre_un[best as int].0@.cost == 0);
            assert(entry_ok(
                (initial_action.pos, start, initial_action),
                self.timeline@[0]@,
                ship_id,
            ));
        }
        let found = self.path(initial_action, start, (target, 0), MAX_LOOKAHEAD);
        match found {
            Some(path) => {
                proof {
                    assert(path@.len() >= 1);
                }
                let iend = path.len() - 1;
                let end_pos = path[iend].pos;
                if end_pos.x != target.x || end_pos.y != target.y {
                    return ;
                }
                if start + iend < t {
                    return ;
                }
                self.apply_path(&path, start);
                // Convert the unit on arrival, if affordable there.
                let arrive = start + iend + 1;
                if arrive > 0x1000 {
                    return ;
                }
                self.extend_to(arrive);
                let ghost pre = *self;
                let end_hal = path[iend].halite;
                let st = &mut self.timeline[arrive];
                proof {
                    assert(pre.timeline@[arrive as int]@.wf());
                    assert(pre.timeline@[arrive as int].width == pre.timeline@[0].width
                        && pre.timeline@[arrive as int].height == pre.timeline@[0].height
                        && pre.timeline@[arrive as int].constants == pre.timeline@[0].constants);
                    assert(pre.timeline@[0]@.merged_wf(path@[iend as int]@));
                    assert(st@.merged_wf(path@[iend as int]@));
                }
                if st.contains_ship(ship_id) || st.ships.len() < 0x1000 {
                    st.apply_merged_mut(&path[iend]);
                }
                let mut converted = false;
                if st.contains_ship(ship_id) {
                    let (spos, shal) = st.ship(ship_id);
                    let cell = st.halite(spos);
                    if st.halite <= usize::MAX - shal - cell && st.halite + shal + cell
                        >= st.constants.dropoff_cost {
                        st.make_dropoff(ship_id);
                        converted = true;
                        let gain = shal + cell;
                        if self.constants.dropoff_cost >= gain {
                            self.save = self.constants.dropoff_cost - gain;
                        } else {
                            self.save = 0;
                        }
                    }
                }
                proof {
                    assert(st@.wf());
                    assert forall|i: int|
                        0 <= i < self.timeline@.len() implies (
                    #[trigger] self.timeline@[i])@.wf() && self.timeline@[i].width
                        == self.timeline@[0].width && self.timeline@[i].height == self.timeline@[
                        0
                    ].height && self.timeline@[i].constants == self.timeline@[0].constants
                        && self.timeline@[i].start == self.timeline@[0].start && self.timeline@[
                        i
                    ].turn == self.timeline@[0].turn + i by {
                        if i != arrive as int {
                            assert(self.timeline@[i] == pre.timeline@[i]);
                        }
                    }
                    assert(self.wf());
                }
                if converted {
                    let actions = self.path_to_actions(&path, true);
                    if actions.len() > 0 {
                        paths.extend_plan(ship_id, actions);
                    }
                }
            },
            None => {},
        }
    }

    /// Emit this turn's commands: plan every unplanned unit, route leftover
    /// units toward their targets through the arbiter, pop the next step of
    /// every plan, and let the arbiter resolve the final movements. Every
    /// live unit of the turn's state ends the turn with exactly one
    /// command: its conversion, its arbitrated move, or staying still.
    pub fn path_ships(&mut self, paths: &mut PlanBook) -> (r: Vec<Command>)
        requires
            old(self).wf(),
            old(paths).wf(),
            old(self).nav.requests_marked(),
        ensures
            final(self).wf(),
            final(paths).wf(),
            r@.len() == final(self).timeline@[0]@.ships.len(),
            forall|k: int|
                0 <= k < r@.len() ==> crate::game::command_names(
                    #[trigger] r@[k],
                    final(self).timeline@[0]@.ships[k].id,
                ),
    {
        // Plan every unit in the pool.
        let mut pending: Vec<(MergedAction, usize)> = Vec::new();
        core::mem::swap(&mut pending, &mut self.unpathed);
        let mut k: usize = 0;
        while k < pending.len()
            invariant
                self.wf(),
                paths.wf(),
                self.nav.requests_marked(),
                k <= pending@.len(),
                forall|j: int|
                    0 <= j < pending@.len() ==> old(self).timeline@[0]@.merged_wf(
                        (#[trigger] pending@[j]).0@,
                    ) && pending@[j].1 <= 0x1000 && pending@[j].0@.cost == 0 && pending@[
                        j
                    ].0@.returned == 0 && pending@[j].0@.mined.len() == 0,
                self.timeline@[0].width == old(self).timeline@[0].width,
                self.timeline@[0].height == old(self).timeline@[0].height,
                self.timeline@[0].constants == old(self).timeline@[0].constants,
            decreases pending@.len() - k,
        {
            let (act, start) = {
                let e = &pending[k];
                (e.0.duplicate(), e.1)
            };
            proof {
                assert(old(self).timeline@[0]@.merged_wf(pending@[k as int].0@));
                assert(act@ =~= pending@[k as int].0@);
                assert(self.timeline@[0]@.merged_wf(act@));
                assert(entry_ok((act.pos, start, act), self.timeline@[0]@, act.ship_id));
            }
            self.path_ship(act, start, paths);
            k = k + 1;
        }
        // Units with no plan head for their target through the arbiter.
        let recs = {
            let st0 = &self.timeline[0];
            copy_vec(&st0.ships)
        };
        let mut k: usize = 0;
        while k < recs.len()
            invariant
                self.wf(),
                paths.wf(),
                self.nav.requests_marked(),
                k <= recs@.len(),
                forall|j: int|
                    0 <= j < recs@.len() ==> pos_on_board(
                        (#[trigger] recs@[j]).pos,
                        self.board_w(),
                        self.board_h(),
                    ),
            decreases recs@.len() - k,
        {
            let rec = recs[k];
            if !paths.contains(rec.id) {
                let target = self.target_pos_t(rec.id, rec.pos);
                let can_move = {
                    let st0 = &self.timeline[0];
                    proof {
                        assert(st0@.on_board(rec.pos));
                    }
                    rec.halite >= st0.halite(rec.pos) / self.constants.move_cost_ratio
                };
                if can_move && !self.nav.has_request(rec.id) && !self.nav.has_request_at(
                    self.nav.normalize(&rec.pos),
                ) {
                    if rec.pos.x == target.0.x && rec.pos.y == target.0.y {
                        self.nav.move_away(rec.id, rec.pos);
                    } else {
                        self.nav.naive_navigate(rec.id, rec.pos, target.0);
                    }
                }
            }
            k = k + 1;
        }
        // Pop the next step of every plan.
        let mut convert_ids: Vec<ShipId> = Vec::new();
        let mut expected: Vec<(ShipId, Command)> = Vec::new();
        let mut pi: usize = 0;
        while pi < paths.len()
            invariant
                self.wf(),
                paths.wf(),
                self.nav.requests_marked(),
                pi <= paths.plans@.len(),
            decreases paths.plans@.len() - pi,
        {
            let ship_id = paths.plans[pi].0;
            let popped = paths.pop_front_at(pi);
            match popped {
                Some(action) => {
                    if action.dropoff {
                        convert_ids.push(ship_id);
                    } else {
                        let has = {
                            let st0 = &self.timeline[0];
                            st0.contains_ship(ship_id)
                        };
                        if has {
                            let pos = {
                                let st0 = &self.timeline[0];
                                st0.ship(ship_id).0
                            };
                            expected.push((ship_id, Command::move_ship(ship_id, action.dir)));
                            if !self.nav.has_request(ship_id) && !self.nav.has_request_at(
                                self.nav.normalize(&pos),
                            ) {
                                self.nav.nav(ship_id, pos, action.dir);
                            }
                        }
                    }
                },
                None => {},
            }
            pi = pi + 1;
        }
        // Terminal phase: depots accept any number of arrivals.
        let end_game = {
            let st0 = &self.timeline[0];
            st0.end_game()
        };
        if end_game {
            let ghost pre_nav = self.nav;
            self.nav.terminal = true;
            proof {
                assert forall|q: int|
                    0 <= q < self.nav.moving@.len() implies (self.nav.grid_at(
                    (#[trigger] self.nav.moving@[q]).pos,
                ) == Some(self.nav.moving@[q].ship_id) || (self.nav.terminal
                    && self.nav.dropoff_at(self.nav.moving@[q].pos))) by {
                    assert(pre_nav.grid_at(pre_nav.moving@[q].pos) == Some(
                        pre_nav.moving@[q].ship_id,
                    ) || (pre_nav.terminal && pre_nav.dropoff_at(pre_nav.moving@[q].pos)));
                }
            }
        }
        let moves = self.nav.collect_moves();
        // A plan whose expected step lost the arbitration is discarded.
        let mut k: usize = 0;
        while k < moves.len()
            invariant
                self.wf(),
                paths.wf(),
                k <= moves@.len(),
            decreases moves@.len() - k,
        {
            let (ship_id, dir) = moves[k];
            let command = Command::move_ship(ship_id, dir);
            let mut e: usize = 0;
            let mut blocked = false;
            while e < expected.len()
                invariant
                    e <= expected@.len(),
                decreases expected@.len() - e,
            {
                let (eid, ecmd) = expected[e];
                if eid.0 == ship_id.0 && !commands_equal(ecmd, command) {
                    blocked = true;
                }
                e = e + 1;
            }
            if blocked {
                paths.remove_plan(ship_id);
            }
            k = k + 1;
        }
        // Emit exactly one command per live unit of the turn's state: its
        // conversion, its arbitrated move, or staying still.
        let recs2 = {
            let st0 = &self.timeline[0];
            copy_vec(&st0.ships)
        };
        let mut command_queue: Vec<Command> = Vec::new();
        let mut k: usize = 0;
        while k < recs2.len()
            invariant
                self.wf(),
                recs2@ =~= self.timeline@[0].ships@,
                k <= recs2@.len(),
                command_queue@.len() == k,
                forall|j: int|
                    0 <= j < k ==> crate::game::command_names(
                        #[trigger] command_queue@[j],
                        recs2@[j].id,
                    ),
            decreases recs2@.len() - k,
        {
            let rec = recs2[k];
            if id_contains(&convert_ids, rec.id) {
                command_queue.push(Command::transform_ship_into_dropoff_site(rec.id));
            } else {
                let mut dir = Direction::Still;
                let mut e: usize = 0;
                while e < moves.len()
                    invariant
                        e <= moves@.len(),
                    decreases moves@.len() - e,
                {
                    if moves[e].0.0 == rec.id.0 {
                        dir = moves[e].1;
                    }
                    e = e + 1;
                }
                command_queue.push(Command::move_ship(rec.id, dir));
            }
            k = k + 1;
        }
        command_queue
    }
}

/// Whether two commands are the same.
fn commands_equal(a: Command, b: Command) -> (r: bool)
    ensures
        r == (a == b),
{
    match (a, b) {
        (Command::Move(ia, da), Command::Move(ib, db)) => ia.0 == ib.0 && da == db,
        (Command::Convert(ia), Command::Convert(ib)) => ia.0 == ib.0,
        (Command::Spawn, Command::Spawn) => true,
        _ => false,
    }
}

/// The whole replay: advance one turn and fold that turn's committed
/// actions, once per future step, collecting the state at every offset.
/// `fold_step` is exactly the contract of `State::replay_turn`, the kernel
/// the timeline constructor applies each gated step with.
pub open spec fn fold_turns(m: StateModel, steps: Seq<Seq<Action>>) -> Seq<StateModel>
    decreases steps.len(),
{
    if steps.len() == 0 {
        seq![m]
    } else {
        let prefix = fold_turns(m, steps.drop_last());
        prefix.push(fold_step(prefix.last().spec_advance(), steps.last()))
    }
}

/// Timeline replay idempotence: replaying the same committed actions
/// against equal snapshots reproduces, at every turn offset, the same
/// state — in particular the same unit positions and cargo. Each step
/// applies an action exactly when `can_apply` accepts it against the state
/// built so far (the verified contract of `State::replay_turn`), and that
/// decision is itself a function of the same data, so an unpoisoned plan
/// replays identically against a freshly constructed timeline.
pub proof fn lemma_replay_idempotent(m1: StateModel, m2: StateModel, steps: Seq<Seq<Action>>)
    requires
        m1 =~= m2,
    ensures
        fold_turns(m1, steps) =~= fold_turns(m2, steps),
        forall|t: int|
            0 <= t < fold_turns(m1, steps).len() ==> (#[trigger] fold_turns(m1, steps)[t]).ships
                =~= fold_turns(m2, steps)[t].ships,
    decreases steps.len(),
{
    assert(m1 == m2);
}

} // verus!
