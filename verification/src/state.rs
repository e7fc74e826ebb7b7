//! An immutable-once-published snapshot of the board and all known units at
//! one turn offset, with pure query and transition operations. Board-indexed
//! data (cell resource, occupancy, hazards, bonus eligibility, depots) is
//! held in row-major arrays; units are held in an id-unique record list.
//!
//! Every transition is specified against the mathematical model
//! [`StateModel`], so that two equal states stepped the same way yield equal
//! states.

use vstd::prelude::*;
use crate::constants::Constants;
use crate::action::{Action, MergedAction, MergedModel};
use crate::game::{cell_index, pos_on_board, pos_of_index, lemma_cell_index_in_range,
    lemma_pos_of_index};
use crate::grid::{Position, Direction, norm1, norm_coord, offset_spec, route_dir,
    route_direction, toroidal_dist, toroidal_distance};
use crate::ids::ShipId;

verus! {

/// One unit: identifier, position, held cargo.
#[derive(PartialEq, Eq, Structural, Clone, Copy, Debug)]
pub struct ShipRecord {
    pub id: ShipId,
    pub pos: Position,
    pub halite: usize,
}

pub struct State {
    /// Cell resource quantities, row-major, `width * height` entries.
    pub map: Vec<usize>,
    /// Every known friendly unit, with unique identifiers.
    pub ships: Vec<ShipRecord>,
    /// Occupancy reservations: the unit id recorded on each cell, if any.
    /// The record is deliberately one-sided: planning writes claims into
    /// future slots (and merging a candidate claims its cell only if free),
    /// so an entry may outlive the unit's stay on the cell and then acts as
    /// a reservation that keeps other candidates out. The engine therefore
    /// never reads this grid as "the unit standing here" — queries that
    /// need a unit's cell go through its record — and no biconditional
    /// between records and positions is maintained or assumed.
    pub taken: Vec<Option<ShipId>>,
    /// Hazard cells: the cargo of the enemy unit recorded there, if any.
    pub enemies: Vec<Option<usize>>,
    /// Cells currently eligible for the resource bonus.
    pub inspired: Vec<bool>,
    /// Depot cells (home base and constructed outposts).
    pub dropoffs: Vec<bool>,
    pub num_players: usize,
    /// Accumulated deposited resource (the bank).
    pub halite: usize,
    pub width: usize,
    pub height: usize,
    /// Absolute turn number of this snapshot.
    pub turn: usize,
    /// Absolute turn number of the originating snapshot.
    pub start: usize,
    pub constants: Constants,
}

/// The mathematical value of a [`State`].
#[verifier::ext_equal]
pub ghost struct StateModel {
    pub map: Seq<usize>,
    pub ships: Seq<ShipRecord>,
    pub taken: Seq<Option<ShipId>>,
    pub enemies: Seq<Option<usize>>,
    pub inspired: Seq<bool>,
    pub dropoffs: Seq<bool>,
    pub num_players: usize,
    pub halite: usize,
    pub width: usize,
    pub height: usize,
    pub turn: usize,
    pub start: usize,
    pub constants: Constants,
}

impl View for State {
    type V = StateModel;

    open spec fn view(&self) -> StateModel {
        StateModel {
            map: self.map@,
            ships: self.ships@,
            taken: self.taken@,
            enemies: self.enemies@,
            inspired: self.inspired@,
            dropoffs: self.dropoffs@,
            num_players: self.num_players,
            halite: self.halite,
            width: self.width,
            height: self.height,
            turn: self.turn,
            start: self.start,
            constants: self.constants,
        }
    }
}

/// Ceiling division.
pub fn div_ceil(num: usize, by: usize) -> (r: usize)
    requires
        by >= 1,
        num + by <= usize::MAX,
    ensures
        r == spec_div_ceil(num as int, by as int),
{
    (num + by - 1) / by
}

/// `ceil(num / by)` for nonnegative `num` and positive `by`.
pub open spec fn spec_div_ceil(num: int, by: int) -> int {
    (num + by - 1) / by
}

/// The cost of moving off a cell holding `cell` resource.
pub open spec fn spec_move_cost(cell: int, c: Constants) -> int {
    cell / (c.move_cost_ratio as int)
}

/// The amount a unit with `cargo` extracts from a cell holding `cell`,
/// with or without the resource bonus. The yield never exceeds the unit's
/// remaining capacity nor the cell's content.
pub open spec fn spec_mined_amount(cell: int, cargo: int, inspired: bool, c: Constants) -> int {
    let base = spec_div_ceil(cell, c.extract_ratio as int);
    let boosted = if inspired {
        base + base * (c.inspired_bonus_multiplier as int)
    } else {
        base
    };
    let cap = c.max_halite as int - cargo;
    vstd::math::min(boosted, vstd::math::min(cap, cell))
}

/// A field-for-field copy of a vector of plain values.
pub fn copy_vec<T: Copy>(v: &Vec<T>) -> (r: Vec<T>)
    ensures
        r@ =~= v@,
{
    let mut r: Vec<T> = Vec::new();
    let mut i: usize = 0;
    while i < v.len()
        invariant
            i <= v@.len(),
            r@ =~= v@.take(i as int),
        decreases v@.len() - i,
    {
        let x = v[i];
        r.push(x);
        i = i + 1;
    }
    proof {
        assert(v@.take(v@.len() as int) =~= v@);
    }
    r
}

/// Two distinct on-board positions have distinct row-major indices.
pub proof fn lemma_cell_index_injective(p: Position, q: Position, w: int, h: int)
    requires
        1 <= w,
        1 <= h,
        pos_on_board(p, w, h),
        pos_on_board(q, w, h),
        cell_index(p, w) == cell_index(q, w),
    ensures
        p == q,
{
    assert(p.y == q.y && p.x == q.x) by (nonlinear_arith)
        requires
            0 <= p.x < w,
            0 <= q.x < w,
            0 <= p.y,
            0 <= q.y,
            p.y * w + p.x == q.y * w + q.x,
    ;
}

impl StateModel {
    pub open spec fn area(self) -> int {
        self.width as int * self.height as int
    }

    pub open spec fn on_board(self, p: Position) -> bool {
        pos_on_board(p, self.width as int, self.height as int)
    }

    pub open spec fn idx(self, p: Position) -> int {
        cell_index(p, self.width as int)
    }

    pub open spec fn has_ship(self, id: ShipId) -> bool {
        exists|i: int| 0 <= i < self.ships.len() && self.ships[i].id == id
    }

    pub open spec fn ship_index(self, id: ShipId) -> int {
        choose|i: int| 0 <= i < self.ships.len() && self.ships[i].id == id
    }

    /// The (position, cargo) pair of a unit.
    pub open spec fn ship_spec(self, id: ShipId) -> (Position, usize) {
        (self.ships[self.ship_index(id)].pos, self.ships[self.ship_index(id)].halite)
    }

    pub open spec fn cell_spec(self, p: Position) -> int {
        self.map[self.idx(p)] as int
    }

    pub open spec fn hazard_at(self, p: Position) -> bool {
        self.enemies[self.idx(p)] is Some
    }

    pub open spec fn inspired_at(self, p: Position) -> bool {
        self.inspired[self.idx(p)]
    }

    pub open spec fn dropoff_at(self, p: Position) -> bool {
        self.dropoffs[self.idx(p)]
    }

    pub open spec fn occupant(self, p: Position) -> Option<ShipId> {
        self.taken[self.idx(p)]
    }

    pub open spec fn norm_spec(self, p: Position) -> Position {
        Position {
            x: norm1(p.x as int, self.width as int) as i32,
            y: norm1(p.y as int, self.height as int) as i32,
        }
    }

    pub open spec fn dist_spec(self, a: Position, b: Position) -> int {
        toroidal_dist(self.norm_spec(a), self.norm_spec(b), self.width as int, self.height as int)
    }

    pub open spec fn turns_remaining_spec(self) -> int {
        if self.turn <= self.constants.max_turns {
            self.constants.max_turns - self.turn
        } else {
            0
        }
    }

    /// Well-formedness: the board arrays cover the board, all quantities
    /// respect the ruleset bounds, unit ids are unique, units sit on the
    /// board within capacity, and every occupancy entry points at a unit
    /// that really stands on that cell.
    pub open spec fn wf(self) -> bool {
        &&& 1 <= self.width <= 0x1000
        &&& 1 <= self.height <= 0x1000
        &&& self.map.len() == self.area()
        &&& self.taken.len() == self.area()
        &&& self.enemies.len() == self.area()
        &&& self.inspired.len() == self.area()
        &&& self.dropoffs.len() == self.area()
        &&& self.constants.wf()
        &&& forall|i: int| 0 <= i < self.map.len() ==> #[trigger] self.map[i] <= 0x10000
        &&& self.ships.len() <= 0x1000
        &&& forall|i: int, j: int|
            0 <= i < j < self.ships.len() ==> (#[trigger] self.ships[i]).id != (
            #[trigger] self.ships[j]).id
        &&& forall|i: int|
            0 <= i < self.ships.len() ==> self.on_board((#[trigger] self.ships[i]).pos)
                && self.ships[i].halite <= self.constants.max_halite
        &&& forall|i: int|
            0 <= i < self.enemies.len() ==> ((#[trigger] self.enemies[i]) matches Some(v)
                ==> v <= 0x10000)
        &&& self.start <= self.turn <= 0x40000
    }

    /// The normalized cell one step from `p` in direction `d`.
    pub open spec fn neighbor(self, p: Position, d: Direction) -> Position {
        self.norm_spec(offset_spec(p, d))
    }

    /// Model of a legal move: cost is debited from cargo, occupancy follows,
    /// and a move onto a depot deposits the remaining cargo into the bank.
    pub open spec fn spec_move_ship(self, id: ShipId, dir: Direction) -> StateModel {
        let pos = self.ship_spec(id).0;
        let hal = self.ship_spec(id).1;
        let cost = spec_move_cost(self.cell_spec(pos), self.constants);
        let np = self.neighbor(pos, dir);
        let after = hal - cost;
        if self.dropoff_at(np) {
            let bank = if self.halite + after > usize::MAX {
                usize::MAX as int
            } else {
                self.halite + after
            };
            (StateModel { halite: bank as usize, ..self }).spec_update_ship(id, np, 0)
        } else {
            self.spec_update_ship(id, np, after as usize)
        }
    }

    /// Model of a mining step: the extracted amount leaves the cell and
    /// enters the unit's cargo.
    pub open spec fn spec_mine_ship(self, id: ShipId) -> StateModel {
        let pos = self.ship_spec(id).0;
        let hal = self.ship_spec(id).1;
        let cell = self.cell_spec(pos);
        let mined = spec_mined_amount(cell, hal as int, self.inspired_at(pos), self.constants);
        self.spec_update_hal(pos, (cell - mined) as usize).spec_update_ship(
            id,
            pos,
            (hal + mined) as usize,
        )
    }

    /// Model of registering a new unit.
    pub open spec fn spec_add_ship(self, rec: ShipRecord) -> StateModel {
        StateModel {
            ships: self.ships.push(rec),
            taken: self.taken.update(self.idx(rec.pos), Some(rec.id)),
            ..self
        }
    }

    /// Model of removing a unit: its record leaves the list and the
    /// occupancy entry on its cell is released.
    pub open spec fn spec_rm_ship(self, id: ShipId) -> StateModel {
        let i = self.ship_index(id);
        let pos = self.ship_spec(id).0;
        StateModel {
            ships: self.ships.remove(i),
            taken: self.taken.update(self.idx(pos), None),
            ..self
        }
    }

    /// Legality of a committed single-turn action against this state: the
    /// action's recorded bonus expectation must match the state, a move must
    /// be affordable and must not enter a hazard cell unless it is a depot,
    /// and staying is legal unless the unit sits on a non-depot hazard cell.
    pub open spec fn can_apply_spec(self, a: Action) -> bool {
        let pos = self.ship_spec(a.ship_id).0;
        let hal = self.ship_spec(a.ship_id).1;
        let np = self.neighbor(pos, a.dir);
        &&& a.inspired == self.inspired_at(np)
        &&& match a.dir {
            Direction::Still => !(self.hazard_at(pos) && !self.dropoff_at(pos)),
            _ => hal >= spec_move_cost(self.cell_spec(pos), self.constants) && (!self.hazard_at(np)
                || self.dropoff_at(np)),
        }
    }

    /// Model of applying a committed action: staying mines, anything else
    /// moves.
    pub open spec fn spec_apply(self, a: Action) -> StateModel {
        match a.dir {
            Direction::Still => self.spec_mine_ship(a.ship_id),
            _ => self.spec_move_ship(a.ship_id, a.dir),
        }
    }

    /// Count (0 or 1) and value (0 if absent) of the hazard on a cell.
    pub open spec fn hazard_cnt(self, p: Position) -> int {
        if self.hazard_at(p) {
            1
        } else {
            0
        }
    }

    pub open spec fn hazard_val(self, p: Position) -> int {
        match self.enemies[self.idx(p)] {
            Some(v) => v as int,
            None => 0,
        }
    }

    /// The average cargo of enemy units on or adjacent to a cell, if any.
    pub open spec fn spec_enemy_value(self, p: Position) -> Option<usize> {
        let c = self.hazard_cnt(p) + self.hazard_cnt(self.neighbor(p, Direction::North))
            + self.hazard_cnt(self.neighbor(p, Direction::South)) + self.hazard_cnt(
            self.neighbor(p, Direction::East),
        ) + self.hazard_cnt(self.neighbor(p, Direction::West));
        let total = self.hazard_val(p) + self.hazard_val(self.neighbor(p, Direction::North))
            + self.hazard_val(self.neighbor(p, Direction::South)) + self.hazard_val(
            self.neighbor(p, Direction::East),
        ) + self.hazard_val(self.neighbor(p, Direction::West));
        if c == 0 {
            None
        } else {
            Some((total / c) as usize)
        }
    }

    /// The hazard set dilated one step in the four cardinal directions;
    /// newly hazardous cells are recorded with no known cargo.
    pub open spec fn dilated_enemies(self) -> Seq<Option<usize>> {
        Seq::new(
            self.enemies.len(),
            |i: int|
                {
                    if self.enemies[i] is Some {
                        self.enemies[i]
                    } else {
                        let p = pos_of_index(i, self.width as int);
                        if self.hazard_at(self.neighbor(p, Direction::North)) || self.hazard_at(
                            self.neighbor(p, Direction::South),
                        ) || self.hazard_at(self.neighbor(p, Direction::East)) || self.hazard_at(
                            self.neighbor(p, Direction::West),
                        ) {
                            Some(0usize)
                        } else {
                            None
                        }
                    }
                },
        )
    }

    /// Model of advancing one turn: on exactly the first advance from the
    /// originating snapshot the hazard positions are dilated one step (one
    /// ply of opponent movement uncertainty); later advances leave them
    /// unchanged.
    pub open spec fn spec_advance(self) -> StateModel {
        StateModel {
            turn: (self.turn + 1) as usize,
            enemies: if self.turn == self.start {
                self.dilated_enemies()
            } else {
                self.enemies
            },
            ..self
        }
    }

    /// Fold a candidate's recorded cell deltas over the board, later entries
    /// overriding earlier ones.
    pub open spec fn apply_mined_seq(map: Seq<usize>, mined: Seq<(Position, usize)>, w: int) -> Seq<
        usize,
    >
        decreases mined.len(),
    {
        if mined.len() == 0 {
            map
        } else {
            Self::apply_mined_seq(map, mined.drop_last(), w).update(
                cell_index(mined.last().0, w),
                mined.last().1,
            )
        }
    }

    /// Model of merging a candidate into this state: the unit's record is
    /// upserted, its cell is claimed only if free (stale claims elsewhere
    /// remain as reservations), the deposited amount enters the bank, and
    /// the recorded cell deltas are written out.
    pub open spec fn spec_apply_merged(self, a: MergedModel) -> StateModel {
        let taken2 = if self.occupant(a.pos) is None {
            self.taken.update(self.idx(a.pos), Some(a.ship_id))
        } else {
            self.taken
        };
        let rec = ShipRecord { id: a.ship_id, pos: a.pos, halite: a.halite };
        let ships2 = if self.has_ship(a.ship_id) {
            self.ships.update(self.ship_index(a.ship_id), rec)
        } else {
            self.ships.push(rec)
        };
        let bank = if self.halite + a.returned > usize::MAX {
            usize::MAX as int
        } else {
            self.halite + a.returned
        };
        StateModel {
            taken: taken2,
            ships: ships2,
            halite: bank as usize,
            map: Self::apply_mined_seq(self.map, a.mined, self.width as int),
            ..self
        }
    }

    /// Model of converting a unit into a depot on its cell.
    pub open spec fn spec_make_dropoff(self, id: ShipId) -> StateModel {
        let pos = self.ship_spec(id).0;
        let hal = self.ship_spec(id).1;
        let cell = self.cell_spec(pos);
        let removed = self.spec_rm_ship(id);
        let gain = hal + cell;
        let bank = if self.constants.dropoff_cost >= gain {
            self.halite - (self.constants.dropoff_cost - gain)
        } else {
            if self.halite + (gain - self.constants.dropoff_cost) > usize::MAX {
                usize::MAX as int
            } else {
                self.halite + (gain - self.constants.dropoff_cost)
            }
        };
        StateModel {
            dropoffs: removed.dropoffs.update(self.idx(pos), true),
            map: removed.map.update(self.idx(pos), 0),
            halite: bank as usize,
            ..removed
        }
    }

    /// The candidate reached by moving one step from `pm` in direction `d`,
    /// if that move is open: an occupied destination is allowed only when it
    /// is a depot (arriving there forfeits the cargo and is priced at twice
    /// a unit's cost); an open destination debits the move cost, deposits on
    /// a depot, and carries a pricing penalty when enemies are adjacent.
    pub open spec fn spec_move_succ(self, pm: MergedModel, d: Direction) -> Option<MergedModel> {
        let cost = spec_move_cost(self.cell_spec(pm.pos), self.constants);
        let np = self.neighbor(pm.pos, d);
        let insp = self.inspired_at(np);
        if self.occupant(np) is Some {
            if self.dropoff_at(np) {
                Some(
                    MergedModel {
                        pos: np,
                        halite: 0,
                        inspired: insp,
                        cost: (pm.cost + 2 * self.constants.ship_cost) as i64,
                        ..pm
                    },
                )
            } else {
                None
            }
        } else {
            let hal_after = pm.halite - cost;
            let risky = self.spec_enemy_value(np) is Some;
            Some(
                MergedModel {
                    pos: np,
                    halite: if self.dropoff_at(np) {
                        0usize
                    } else {
                        hal_after as usize
                    },
                    returned: if self.dropoff_at(np) {
                        (pm.returned + hal_after) as usize
                    } else {
                        pm.returned
                    },
                    inspired: insp,
                    risk: pm.risk || risky,
                    cost: (pm.cost + cost + if risky {
                        1000int
                    } else {
                        0int
                    }) as i64,
                    ..pm
                },
            )
        }
    }

    /// The candidate reached by mining the cell `pm` stands on.
    pub open spec fn spec_mine_succ(self, pm: MergedModel, inspire: bool) -> MergedModel {
        let hal = self.cell_spec(pm.pos);
        let insp_eff = inspire && self.inspired_at(pm.pos);
        let mined = spec_mined_amount(hal, pm.halite as int, insp_eff, self.constants);
        let risky = self.spec_enemy_value(pm.pos) is Some;
        MergedModel {
            halite: (pm.halite + mined) as usize,
            inspired: insp_eff,
            risk: pm.risk || risky,
            mined: pm.mined.push((pm.pos, (hal - mined) as usize)),
            cost: (pm.cost - mined + if risky {
                1000int
            } else {
                0int
            }) as i64,
            ..pm
        }
    }

    /// The move candidates over a list of directions, in order.
    pub open spec fn collect_move_succs(self, pm: MergedModel, dirs: Seq<Direction>) -> Seq<
        MergedModel,
    >
        decreases dirs.len(),
    {
        if dirs.len() == 0 {
            Seq::empty()
        } else {
            let rest = self.collect_move_succs(pm, dirs.drop_last());
            match self.spec_move_succ(pm, dirs.last()) {
                Some(m) => rest.push(m),
                None => rest,
            }
        }
    }

    /// Every legal next candidate from `pm` against this state: at most four
    /// moves (all gated on affording the departure cost) plus, if allowed
    /// and the cell is reserved for this unit, one mining step. No
    /// candidates remain once the game is out of turns.
    pub open spec fn spec_successors(self, pm: MergedModel, allow_mine: bool, inspire: bool) -> Seq<
        MergedModel,
    > {
        if self.turns_remaining_spec() > 0 {
            let cardinals = seq![
                Direction::North,
                Direction::South,
                Direction::East,
                Direction::West,
            ];
            let moves = if pm.halite >= spec_move_cost(self.cell_spec(pm.pos), self.constants) {
                self.collect_move_succs(pm, cardinals)
            } else {
                Seq::empty()
            };
            let mine = if allow_mine && self.occupant(pm.pos) == Some(pm.ship_id) {
                seq![self.spec_mine_succ(pm, inspire)]
            } else {
                Seq::empty()
            };
            moves + mine
        } else {
            Seq::empty()
        }
    }

    /// Validity of a candidate against this state: it stands on the board,
    /// respects capacity, and its recorded deltas are on-board cells holding
    /// in-range quantities.
    pub open spec fn merged_wf(self, a: MergedModel) -> bool {
        &&& self.on_board(a.pos)
        &&& a.halite <= self.constants.max_halite
        &&& a.returned <= 0x2000_0000
        &&& -0x4000_0000_0000 <= a.cost <= 0x4000_0000_0000
        &&& forall|i: int|
            0 <= i < a.mined.len() ==> self.on_board((#[trigger] a.mined[i]).0) && a.mined[i].1
                <= 0x10000
    }

    /// Model of replacing a cell's resource quantity.
    pub open spec fn spec_update_hal(self, p: Position, hal: usize) -> StateModel {
        StateModel { map: self.map.update(self.idx(p), hal), ..self }
    }

    /// Model of relocating a unit: its record is rewritten, the occupancy
    /// entry on its old cell is released if it was its own, and the new cell
    /// records it.
    pub open spec fn spec_update_ship(self, id: ShipId, pos: Position, hal: usize) -> StateModel {
        let old_pos = self.ship_spec(id).0;
        let cleared = if self.taken[self.idx(old_pos)] == Some(id) {
            self.taken.update(self.idx(old_pos), None)
        } else {
            self.taken
        };
        StateModel {
            ships: self.ships.update(
                self.ship_index(id),
                ShipRecord { id, pos, halite: hal },
            ),
            taken: cleared.update(self.idx(pos), Some(id)),
            ..self
        }
    }
}

/// The unique index of a unit in an id-unique record list.
pub proof fn lemma_ship_index_is(m: StateModel, id: ShipId, i: int)
    requires
        forall|a: int, b: int|
            0 <= a < b < m.ships.len() ==> (#[trigger] m.ships[a]).id != (#[trigger] m.ships[b]).id,
        0 <= i < m.ships.len(),
        m.ships[i].id == id,
    ensures
        m.has_ship(id),
        m.ship_index(id) == i,
{
    assert(m.has_ship(id));
    let j = m.ship_index(id);
    assert(0 <= j < m.ships.len() && m.ships[j].id == id);
    if i < j {
        assert(m.ships[i].id != m.ships[j].id);
    } else if j < i {
        assert(m.ships[j].id != m.ships[i].id);
    }
}

impl State {
    /// Find the record index of a unit.
    fn find_ship(&self, id: ShipId) -> (r: Option<usize>)
        ensures
            match r {
                Some(i) => i < self@.ships.len() && self@.ships[i as int].id == id,
                None => !self@.has_ship(id),
            },
    {
        let mut i: usize = 0;
        while i < self.ships.len()
            invariant
                i <= self@.ships.len(),
                forall|j: int| 0 <= j < i ==> (#[trigger] self@.ships[j]).id != id,
            decreases self@.ships.len() - i,
        {
            if self.ships[i].id.0 == id.0 {
                return Some(i);
            }
            i = i + 1;
        }
        None
    }

    /// Whether a unit with this id is known.
    pub fn contains_ship(&self, id: ShipId) -> (r: bool)
        ensures
            r == self@.has_ship(id),
    {
        proof {
            if self@.has_ship(id) {
                let k = self@.ship_index(id);
            }
        }
        self.find_ship(id).is_some()
    }

    /// Wrap a position onto the board.
    pub fn normalize(&self, position: Position) -> (r: Position)
        requires
            self@.wf(),
        ensures
            r == self@.norm_spec(position),
            self@.on_board(r),
    {
        Position {
            x: norm_coord(position.x, self.width as i32),
            y: norm_coord(position.y, self.height as i32),
        }
    }

    /// Toroidal distance between two (possibly unnormalized) positions.
    pub fn calculate_distance(&self, source: Position, target: Position) -> (r: usize)
        requires
            self@.wf(),
        ensures
            r == self@.dist_spec(source, target),
    {
        let s = self.normalize(source);
        let t = self.normalize(target);
        toroidal_distance(s, t, self.width as i32, self.height as i32)
    }

    /// The resource quantity on a cell.
    pub fn halite(&self, pos: Position) -> (r: usize)
        requires
            self@.wf(),
            self@.on_board(pos),
        ensures
            r == self@.cell_spec(pos),
            r <= 0x10000,
    {
        proof {
            lemma_cell_index_in_range(pos, self.width as int, self.height as int);
        }
        self.map[(pos.y as usize) * self.width + (pos.x as usize)]
    }

    /// Replace the resource quantity on a cell.
    pub fn update_hal(&mut self, pos: Position, hal: usize)
        requires
            old(self)@.wf(),
            old(self)@.on_board(pos),
            hal <= 0x10000,
        ensures
            final(self)@.wf(),
            final(self)@ =~= old(self)@.spec_update_hal(pos, hal),
    {
        proof {
            lemma_cell_index_in_range(pos, self.width as int, self.height as int);
        }
        let i = (pos.y as usize) * self.width + (pos.x as usize);
        self.map.set(i, hal);
    }

    /// The (position, cargo) of a unit that must exist.
    pub fn ship(&self, ship_id: ShipId) -> (r: (Position, usize))
        requires
            self@.wf(),
            self@.has_ship(ship_id),
        ensures
            r == self@.ship_spec(ship_id),
            self@.on_board(r.0),
            r.1 <= self.constants.max_halite,
    {
        let idx_opt = self.find_ship(ship_id);
        proof {
            if idx_opt is None {
                assert(false);
            }
        }
        let i = idx_opt.unwrap();
        proof {
            lemma_ship_index_is(self@, ship_id, i as int);
        }
        (self.ships[i].pos, self.ships[i].halite)
    }

    /// Relocate a unit and rewrite the occupancy entries accordingly.
    pub fn update_ship(&mut self, ship_id: ShipId, pos: Position, hal: usize)
        requires
            old(self)@.wf(),
            old(self)@.has_ship(ship_id),
            old(self)@.on_board(pos),
            hal <= old(self).constants.max_halite,
        ensures
            final(self)@.wf(),
            final(self)@ =~= old(self)@.spec_update_ship(ship_id, pos, hal),
            final(self)@.has_ship(ship_id),
            final(self)@.ship_spec(ship_id) == (pos, hal),
    {
        let ghost m0 = self@;
        let idx_opt = self.find_ship(ship_id);
        proof {
            if idx_opt is None {
                assert(false);
            }
        }
        let i = idx_opt.unwrap();
        proof {
            lemma_ship_index_is(m0, ship_id, i as int);
            lemma_cell_index_in_range(self.ships@[i as int].pos, self.width as int, self.height as int);
            lemma_cell_index_in_range(pos, self.width as int, self.height as int);
        }
        let old_pos = self.ships[i].pos;
        let oi = (old_pos.y as usize) * self.width + (old_pos.x as usize);
        let same = match self.taken[oi] {
            Some(t) => t.0 == ship_id.0,
            None => false,
        };
        if same {
            self.taken.set(oi, None);
        }
        let ni = (pos.y as usize) * self.width + (pos.x as usize);
        self.taken.set(ni, Some(ship_id));
        self.ships.set(i, ShipRecord { id: ship_id, pos, halite: hal });
        proof {
            lemma_ship_index_is(self@, ship_id, i as int);
            assert(final(self)@ =~= m0.spec_update_ship(ship_id, pos, hal));
            lemma_update_ship_wf(m0, ship_id, pos, hal);
        }
    }
}

impl State {
    pub fn occupant_at(&self, pos: Position) -> (r: Option<ShipId>)
        requires
            self@.wf(),
            self@.on_board(pos),
        ensures
            r == self@.occupant(pos),
    {
        proof {
            lemma_cell_index_in_range(pos, self.width as int, self.height as int);
        }
        self.taken[(pos.y as usize) * self.width + (pos.x as usize)]
    }

    pub fn is_hazard(&self, pos: Position) -> (r: bool)
        requires
            self@.wf(),
            self@.on_board(pos),
        ensures
            r == self@.hazard_at(pos),
    {
        proof {
            lemma_cell_index_in_range(pos, self.width as int, self.height as int);
        }
        self.enemies[(pos.y as usize) * self.width + (pos.x as usize)].is_some()
    }

    pub fn is_inspired(&self, pos: Position) -> (r: bool)
        requires
            self@.wf(),
            self@.on_board(pos),
        ensures
            r == self@.inspired_at(pos),
    {
        proof {
            lemma_cell_index_in_range(pos, self.width as int, self.height as int);
        }
        self.inspired[(pos.y as usize) * self.width + (pos.x as usize)]
    }

    pub fn is_dropoff(&self, pos: Position) -> (r: bool)
        requires
            self@.wf(),
            self@.on_board(pos),
        ensures
            r == self@.dropoff_at(pos),
    {
        proof {
            lemma_cell_index_in_range(pos, self.width as int, self.height as int);
        }
        self.dropoffs[(pos.y as usize) * self.width + (pos.x as usize)]
    }

    /// Turns left before the game ends.
    pub fn turns_remaining(&self) -> (r: usize)
        requires
            self@.wf(),
        ensures
            r == self@.turns_remaining_spec(),
    {
        if self.turn <= self.constants.max_turns {
            self.constants.max_turns - self.turn
        } else {
            0
        }
    }

    /// Whether the game is near its end: too few turns remain to plan a
    /// round trip across the board, so units head straight home.
    pub fn end_game(&self) -> (r: bool)
        requires
            self@.wf(),
        ensures
            r == (self@.turns_remaining_spec() <= (self.width + self.height) / 2),
    {
        self.turns_remaining() <= (self.width + self.height) / 2
    }

    /// Move a unit one step. The departure cost must be affordable; a move
    /// onto a depot deposits the unit's remaining cargo into the bank.
    pub fn move_ship(&mut self, ship_id: ShipId, dir: Direction)
        requires
            old(self)@.wf(),
            old(self)@.has_ship(ship_id),
            dir != Direction::Still,
            old(self)@.ship_spec(ship_id).1 >= spec_move_cost(
                old(self)@.cell_spec(old(self)@.ship_spec(ship_id).0),
                old(self).constants,
            ),
        ensures
            final(self)@.wf(),
            final(self)@ =~= old(self)@.spec_move_ship(ship_id, dir),
    {
        let (pos, hal) = self.ship(ship_id);
        let cost = self.halite(pos) / self.constants.move_cost_ratio;
        let new_pos = self.normalize(pos.directional_offset(dir));
        let after_move = hal - cost;
        let new_hal = if self.is_dropoff(new_pos) {
            if self.halite > usize::MAX - after_move {
                self.halite = usize::MAX;
            } else {
                self.halite = self.halite + after_move;
            }
            0
        } else {
            after_move
        };
        self.update_ship(ship_id, new_pos, new_hal);
    }

    /// Mine the cell a unit stands on: the extracted amount (bonus-scaled on
    /// an eligible cell, and never more than the unit's remaining capacity
    /// nor the cell's content) leaves the cell and enters the unit's cargo.
    pub fn mine_ship(&mut self, ship_id: ShipId)
        requires
            old(self)@.wf(),
            old(self)@.has_ship(ship_id),
        ensures
            final(self)@.wf(),
            final(self)@ =~= old(self)@.spec_mine_ship(ship_id),
    {
        let (pos, hal) = self.ship(ship_id);
        let cell = self.halite(pos);
        let cap = self.constants.max_halite - hal;
        let base = div_ceil(cell, self.constants.extract_ratio);
        proof {
            assert(base <= cell) by (nonlinear_arith)
                requires
                    base == (cell + self.constants.extract_ratio - 1) as int / (
                    self.constants.extract_ratio as int),
                    1 <= self.constants.extract_ratio,
                    0 <= cell <= 0x10000,
            ;
        }
        proof {
            assert(base * self.constants.inspired_bonus_multiplier <= 0x100000) by (
            nonlinear_arith)
                requires
                    0 <= base <= 0x10000,
                    0 <= self.constants.inspired_bonus_multiplier <= 0x10,
            ;
        }
        let boosted = if self.is_inspired(pos) {
            base + base * self.constants.inspired_bonus_multiplier
        } else {
            base
        };
        let mined = if boosted <= cap {
            boosted
        } else {
            cap
        };
        let mined = if mined <= cell {
            mined
        } else {
            cell
        };
        self.update_hal(pos, cell - mined);
        self.update_ship(ship_id, pos, hal + mined);
    }

    /// Whether a committed action is legal against this state.
    pub fn can_apply(&self, action: Action) -> (r: bool)
        requires
            self@.wf(),
            self@.has_ship(action.ship_id),
        ensures
            r == self@.can_apply_spec(action),
    {
        let (pos, hal) = self.ship(action.ship_id);
        let new_pos = self.normalize(pos.directional_offset(action.dir));
        if action.inspired != self.is_inspired(new_pos) {
            return false;
        }
        match action.dir {
            Direction::Still => !(self.is_hazard(pos) && !self.is_dropoff(pos)),
            _ => {
                let cost = self.halite(pos) / self.constants.move_cost_ratio;
                hal >= cost && (!self.is_hazard(new_pos) || self.is_dropoff(new_pos))
            },
        }
    }

    /// The average cargo of enemy units on or adjacent to a cell, if any.
    pub fn enemy_value(&self, pos: Position) -> (r: Option<usize>)
        requires
            self@.wf(),
            self@.on_board(pos),
        ensures
            r == self@.spec_enemy_value(pos),
    {
        let mut total: usize = 0;
        let mut c: usize = 0;
        if self.is_hazard(pos) {
            c = c + 1;
            total = total + self.hazard_value(pos);
        }
        let pn = self.normalize(pos.directional_offset(Direction::North));
        if self.is_hazard(pn) {
            c = c + 1;
            total = total + self.hazard_value(pn);
        }
        let ps = self.normalize(pos.directional_offset(Direction::South));
        if self.is_hazard(ps) {
            c = c + 1;
            total = total + self.hazard_value(ps);
        }
        let pe = self.normalize(pos.directional_offset(Direction::East));
        if self.is_hazard(pe) {
            c = c + 1;
            total = total + self.hazard_value(pe);
        }
        let pw = self.normalize(pos.directional_offset(Direction::West));
        if self.is_hazard(pw) {
            c = c + 1;
            total = total + self.hazard_value(pw);
        }
        if c == 0 {
            None
        } else {
            Some(total / c)
        }
    }

    /// The recorded cargo of the hazard on a cell, zero if none.
    fn hazard_value(&self, pos: Position) -> (r: usize)
        requires
            self@.wf(),
            self@.on_board(pos),
        ensures
            r == self@.hazard_val(pos),
            r <= 0x10000,
    {
        proof {
            lemma_cell_index_in_range(pos, self.width as int, self.height as int);
        }
        match self.enemies[(pos.y as usize) * self.width + (pos.x as usize)] {
            Some(v) => v,
            None => 0,
        }
    }

    /// Register a new unit at its position; the cell is claimed for it.
    pub fn add_ship(&mut self, ship: &crate::game::Ship)
        requires
            old(self)@.wf(),
            old(self)@.on_board(ship.position),
            ship.halite <= old(self).constants.max_halite,
            !old(self)@.has_ship(ship.id),
            old(self)@.ships.len() < 0x1000,
        ensures
            final(self)@.wf(),
            final(self)@ =~= old(self)@.spec_add_ship(
                ShipRecord { id: ship.id, pos: ship.position, halite: ship.halite },
            ),
            final(self)@.has_ship(ship.id),
    {
        proof {
            lemma_cell_index_in_range(ship.position, self.width as int, self.height as int);
        }
        let rec = ShipRecord { id: ship.id, pos: ship.position, halite: ship.halite };
        self.ships.push(rec);
        let i = (ship.position.y as usize) * self.width + (ship.position.x as usize);
        self.taken.set(i, Some(ship.id));
        proof {
            let m2 = self@;
            lemma_ship_index_is(m2, ship.id, m2.ships.len() - 1);
            assert forall|a: int, b: int|
                0 <= a < b < m2.ships.len() implies (#[trigger] m2.ships[a]).id != (
            #[trigger] m2.ships[b]).id by {
                if b < m2.ships.len() - 1 {
                    assert(old(self)@.ships[a].id != old(self)@.ships[b].id);
                } else {
                    assert(!old(self)@.has_ship(ship.id));
                    if old(self)@.ships[a].id == ship.id {
                        assert(old(self)@.has_ship(ship.id));
                    }
                }
            }
        }
    }

    /// Remove a unit; the occupancy entry on its cell is released.
    pub fn rm_ship(&mut self, ship_id: ShipId)
        requires
            old(self)@.wf(),
            old(self)@.has_ship(ship_id),
        ensures
            final(self)@.wf(),
            final(self)@ =~= old(self)@.spec_rm_ship(ship_id),
    {
        let ghost m0 = self@;
        let idx_opt = self.find_ship(ship_id);
        proof {
            if idx_opt is None {
                assert(false);
            }
        }
        let i = idx_opt.unwrap();
        proof {
            lemma_ship_index_is(m0, ship_id, i as int);
            lemma_cell_index_in_range(
                self.ships@[i as int].pos,
                self.width as int,
                self.height as int,
            );
        }
        let pos = self.ships[i].pos;
        let pi = (pos.y as usize) * self.width + (pos.x as usize);
        self.taken.set(pi, None);
        self.ships.remove(i);
        proof {
            let m2 = self@;
            assert forall|a: int, b: int|
                0 <= a < b < m2.ships.len() implies (#[trigger] m2.ships[a]).id != (
            #[trigger] m2.ships[b]).id by {
                let a0 = if a < i as int {
                    a
                } else {
                    a + 1
                };
                let b0 = if b < i as int {
                    b
                } else {
                    b + 1
                };
                assert(m2.ships[a] == m0.ships[a0] && m2.ships[b] == m0.ships[b0]);
                assert(m0.ships[a0].id != m0.ships[b0].id);
            }
            assert forall|k: int|
                0 <= k < m2.ships.len() implies m2.on_board((#[trigger] m2.ships[k]).pos)
                && m2.ships[k].halite <= m2.constants.max_halite by {
                let k0 = if k < i as int {
                    k
                } else {
                    k + 1
                };
                assert(m2.ships[k] == m0.ships[k0]);
            }
        }
    }

    /// A field-for-field copy; the engine's timeline stores one state per
    /// future turn offset, derived from its predecessor.
    pub fn duplicate(&self) -> (r: State)
        ensures
            r@ =~= self@,
    {
        State {
            map: copy_vec(&self.map),
            ships: copy_vec(&self.ships),
            taken: copy_vec(&self.taken),
            enemies: copy_vec(&self.enemies),
            inspired: copy_vec(&self.inspired),
            dropoffs: copy_vec(&self.dropoffs),
            num_players: self.num_players,
            halite: self.halite,
            width: self.width,
            height: self.height,
            turn: self.turn,
            start: self.start,
            constants: self.constants,
        }
    }

    /// The next turn's state: the turn number advances, and on exactly the
    /// first advance from the originating snapshot the hazard positions are
    /// dilated one step in the four cardinal directions.
    pub fn next(&self) -> (r: State)
        requires
            self@.wf(),
            self.turn < 0x40000,
        ensures
            r@.wf(),
            r@ =~= self@.spec_advance(),
    {
        let mut r = self.duplicate();
        r.turn = self.turn + 1;
        if self.turn == self.start {
            let mut enemies: Vec<Option<usize>> = Vec::new();
            proof {
                assert(self.width * self.height <= 0x1000000) by (nonlinear_arith)
                    requires 1 <= self.width <= 0x1000, 1 <= self.height <= 0x1000,
                ;
                assert(self@.dilated_enemies().len() == self@.enemies.len());
            }
            let area = self.width * self.height;
            let mut i: usize = 0;
            while i < area
                invariant
                    self@.wf(),
                    area == self@.area(),
                    area <= 0x1000000,
                    i <= area,
                    enemies@.len() == i,
                    forall|j: int| 0 <= j < i ==> enemies@[j] == self@.dilated_enemies()[j],
                decreases area - i,
            {
                proof {
                    lemma_pos_of_index(i as int, self.width as int, self.height as int);
                }
                let p = Position { x: (i % self.width) as i32, y: (i / self.width) as i32 };
                let e = self.enemies[i];
                if e.is_some() {
                    enemies.push(e);
                } else {
                    let hn = self.is_hazard(self.normalize(p.directional_offset(Direction::North)));
                    let hs = self.is_hazard(self.normalize(p.directional_offset(Direction::South)));
                    let he = self.is_hazard(self.normalize(p.directional_offset(Direction::East)));
                    let hw = self.is_hazard(self.normalize(p.directional_offset(Direction::West)));
                    if hn || hs || he || hw {
                        enemies.push(Some(0));
                    } else {
                        enemies.push(None);
                    }
                }
                i = i + 1;
            }
            r.enemies = enemies;
            proof {
                assert(r@.enemies =~= self@.dilated_enemies());
            }
        }
        r
    }

    /// Merge a committed candidate into this state in place.
    pub fn apply_merged_mut(&mut self, merged: &MergedAction)
        requires
            old(self)@.wf(),
            old(self)@.merged_wf(merged@),
            old(self)@.has_ship(merged.ship_id) || old(self)@.ships.len() < 0x1000,
        ensures
            final(self)@.wf(),
            final(self)@ =~= old(self)@.spec_apply_merged(merged@),
    {
        let ghost m0 = self@;
        proof {
            lemma_cell_index_in_range(merged.pos, self.width as int, self.height as int);
        }
        let pi = (merged.pos.y as usize) * self.width + (merged.pos.x as usize);
        if self.taken[pi].is_none() {
            self.taken.set(pi, Some(merged.ship_id));
        }
        let rec = ShipRecord { id: merged.ship_id, pos: merged.pos, halite: merged.halite };
        let idx_opt = self.find_ship(merged.ship_id);
        match idx_opt {
            Some(i) => {
                proof {
                    lemma_ship_index_is(m0, merged.ship_id, i as int);
                }
                self.ships.set(i, rec);
                proof {
                    assert(forall|k: int|
                        0 <= k < self@.ships.len() ==> (#[trigger] self@.ships[k]).id
                            == m0.ships[k].id);
                    assert forall|a: int, b: int|
                        0 <= a < b < self@.ships.len() implies (#[trigger] self@.ships[a]).id != (
                    #[trigger] self@.ships[b]).id by {
                        assert(m0.ships[a].id != m0.ships[b].id);
                    }
                }
            },
            None => {
                proof {
                    assert forall|a: int| 0 <= a < m0.ships.len() implies (
                    #[trigger] m0.ships[a]).id != merged.ship_id by {
                        if m0.ships[a].id == merged.ship_id {
                            assert(m0.has_ship(merged.ship_id));
                            assert(!self@.has_ship(merged.ship_id));
                            assert(false);
                        }
                    }
                }
                self.ships.push(rec);
                proof {
                    assert forall|a: int, b: int|
                        0 <= a < b < self@.ships.len() implies (#[trigger] self@.ships[a]).id != (
                    #[trigger] self@.ships[b]).id by {
                        if b < self@.ships.len() - 1 {
                            assert(self@.ships[a] == m0.ships[a]);
                            assert(self@.ships[b] == m0.ships[b]);
                            assert(m0.ships[a].id != m0.ships[b].id);
                        } else {
                            assert(self@.ships[a] == m0.ships[a]);
                            assert(self@.ships[b].id == merged.ship_id);
                        }
                    }
                }
            },
        }
        proof {
            assert forall|k: int|
                0 <= k < self@.ships.len() implies self@.on_board((#[trigger] self@.ships[k]).pos)
                && self@.ships[k].halite <= self@.constants.max_halite by {
                if k < m0.ships.len() && self@.ships[k] == m0.ships[k] {
                    assert(m0.on_board(m0.ships[k].pos));
                } else {
                    assert(self@.ships[k] == rec);
                }
            }
            assert(self@.wf());
        }
        if self.halite > usize::MAX - merged.returned {
            self.halite = usize::MAX;
        } else {
            self.halite = self.halite + merged.returned;
        }
        let ghost mid = self@;
        let mut k: usize = 0;
        proof {
            assert(merged.mined@.take(0) =~= Seq::<(Position, usize)>::empty());
        }
        while k < merged.mined.len()
            invariant
                self@.wf(),
                mid.wf(),
                mid.width == old(self).width,
                mid.height == old(self).height,
                old(self)@.merged_wf(merged@),
                k <= merged.mined@.len(),
                self@ =~= (StateModel {
                    map: StateModel::apply_mined_seq(
                        mid.map,
                        merged.mined@.take(k as int),
                        mid.width as int,
                    ),
                    ..mid
                }),
            decreases merged.mined@.len() - k,
        {
            proof {
                let a = merged@;
                assert(0 <= k < a.mined.len());
                assert(old(self)@.on_board((a.mined[k as int]).0) && (a.mined[k as int]).1
                    <= 0x10000);
                assert(self@.width == mid.width && self@.height == mid.height);
            }
            let (p, v) = merged.mined[k];
            self.update_hal(p, v);
            proof {
                assert(merged.mined@.take(k as int + 1).drop_last() =~= merged.mined@.take(
                    k as int,
                ));
            }
            k = k + 1;
        }
        proof {
            assert(merged.mined@.take(merged.mined@.len() as int) =~= merged.mined@);
            assert(self@ =~= m0.spec_apply_merged(merged@));
        }
    }

    /// Merge a committed candidate into a copy of this state.
    pub fn apply_merged(&self, merged: &MergedAction) -> (r: State)
        requires
            self@.wf(),
            self@.merged_wf(merged@),
            self@.has_ship(merged.ship_id) || self@.ships.len() < 0x1000,
        ensures
            r@.wf(),
            r@ =~= self@.spec_apply_merged(merged@),
    {
        let mut state = self.duplicate();
        state.apply_merged_mut(merged);
        state
    }

    /// Every legal next candidate from `merged`: the candidate is first
    /// merged into a copy of this state, and from its implied cell at most
    /// four moves plus one optional mining step are enumerated, each with
    /// exact cargo, deposit, flag and pricing bookkeeping.
    pub fn actions(&self, merged: &MergedAction, allow_mine: bool, inspire: bool) -> (r: Vec<
        MergedAction,
    >)
        requires
            self@.wf(),
            self@.merged_wf(merged@),
            self@.has_ship(merged.ship_id) || self@.ships.len() < 0x1000,
        ensures
            r@.map_values(|a: MergedAction| a@) =~= self@.spec_apply_merged(
                merged@,
            ).spec_successors(merged@, allow_mine, inspire),
    {
        let state = self.apply_merged(merged);
        let ghost st = state@;
        let position = merged.pos;
        let halite0 = merged.halite;
        let cost = state.halite(position) / state.constants.move_cost_ratio;
        let mut out: Vec<MergedAction> = Vec::new();
        let ghost cardinals = seq![
            Direction::North,
            Direction::South,
            Direction::East,
            Direction::West,
        ];
        if state.turns_remaining() > 0 {
            if halite0 >= cost {
                let dirs = Direction::get_all_cardinals();
                proof {
                    assert(dirs@ =~= cardinals);
                    assert(cardinals.take(0) =~= Seq::<Direction>::empty());
                }
                let mut k: usize = 0;
                while k < dirs.len()
                    invariant
                        st.wf(),
                        st == state@,
                        dirs@ == cardinals,
                        cardinals.len() == 4,
                        k <= 4,
                        st.merged_wf(merged@),
                        position == merged.pos,
                        halite0 == merged.halite,
                        halite0 >= cost,
                        cost == spec_move_cost(st.cell_spec(position), st.constants),
                        out@.map_values(|a: MergedAction| a@) =~= st.collect_move_succs(
                            merged@,
                            cardinals.take(k as int),
                        ),
                    decreases 4 - k,
                {
                    let dir = dirs[k];
                    let np = state.normalize(position.directional_offset(dir));
                    let insp = state.is_inspired(np);
                    proof {
                        assert(cardinals.take(k as int + 1).drop_last() =~= cardinals.take(
                            k as int,
                        ));
                        assert(cardinals.take(k as int + 1).last() == cardinals[k as int]);
                    }
                    if state.occupant_at(np).is_some() {
                        if state.is_dropoff(np) {
                            let mut action = merged.duplicate();
                            action.pos = np;
                            action.halite = 0;
                            action.inspired = insp;
                            action.cost = action.cost + 2 * (state.constants.ship_cost as i64);
                            proof {
                                assert(action@ =~= st.spec_move_succ(merged@, dir)->Some_0);
                            }
                            out.push(action);
                        }
                    } else {
                        let mut action = merged.duplicate();
                        let hal_after = halite0 - cost;
                        proof {
                            assert(action@ == merged@);
                            assert(action.returned <= 0x2000_0000);
                            assert(hal_after <= 0x10000);
                        }
                        if state.is_dropoff(np) {
                            action.returned = action.returned + hal_after;
                            action.halite = 0;
                        } else {
                            action.halite = hal_after;
                        }
                        action.pos = np;
                        action.inspired = insp;
                        action.cost = action.cost + (cost as i64);
                        if state.enemy_value(np).is_some() {
                            action.risk = true;
                            action.cost = action.cost + 1000;
                        }
                        proof {
                            assert(action@ =~= st.spec_move_succ(merged@, dir)->Some_0);
                        }
                        out.push(action);
                    }
                    k = k + 1;
                }
                proof {
                    assert(cardinals.take(4) =~= cardinals);
                }
            }
            let mine_allowed = if allow_mine {
                match state.occupant_at(position) {
                    Some(id) => id.0 == merged.ship_id.0,
                    None => false,
                }
            } else {
                false
            };
            if mine_allowed {
                let mut action = merged.duplicate();
                let hal = state.halite(position);
                let cap = state.constants.max_halite - halite0;
                let base = div_ceil(hal, state.constants.extract_ratio);
                proof {
                    assert(base <= hal) by (nonlinear_arith)
                        requires
                            base == (hal + state.constants.extract_ratio - 1) as int / (
                            state.constants.extract_ratio as int),
                            1 <= state.constants.extract_ratio,
                            0 <= hal <= 0x10000,
                    ;
                    assert(base * state.constants.inspired_bonus_multiplier <= 0x100000) by (
                    nonlinear_arith)
                        requires
                            0 <= base <= 0x10000,
                            0 <= state.constants.inspired_bonus_multiplier <= 0x10,
                    ;
                }
                let insp_eff = inspire && state.is_inspired(position);
                let boosted = if insp_eff {
                    base + base * state.constants.inspired_bonus_multiplier
                } else {
                    base
                };
                let mined = if boosted <= cap {
                    boosted
                } else {
                    cap
                };
                let mined = if mined <= hal {
                    mined
                } else {
                    hal
                };
                action.inspired = insp_eff;
                action.halite = halite0 + mined;
                action.set_mined(position, hal - mined);
                action.cost = action.cost - (mined as i64);
                if state.enemy_value(position).is_some() {
                    action.risk = true;
                    action.cost = action.cost + 1000;
                }
                proof {
                    assert(action@ =~= st.spec_mine_succ(merged@, inspire));
                }
                out.push(action);
            }
        }
        proof {
            assert(out@.map_values(|a: MergedAction| a@) =~= st.spec_successors(
                merged@,
                allow_mine,
                inspire,
            ));
        }
        out
    }

    /// The depot cell nearest to a position (row-major first on ties).
    pub fn nearest_dropoff(&self, pos: Position) -> (r: Position)
        requires
            self@.wf(),
            exists|q: Position|
                self@.on_board(q) && #[trigger] self@.dropoff_at(q),
        ensures
            self@.on_board(r),
            self@.dropoff_at(r),
            forall|q: Position|
                self@.on_board(q) && #[trigger] self@.dropoff_at(q) ==> self@.dist_spec(pos, r)
                    <= self@.dist_spec(pos, q),
    {
        proof {
            assert(self.width * self.height <= 0x1000000) by (nonlinear_arith)
                requires 1 <= self.width <= 0x1000, 1 <= self.height <= 0x1000,
            ;
        }
        let area = self.width * self.height;
        let mut best: Option<(Position, usize)> = None;
        let mut i: usize = 0;
        while i < area
            invariant
                self@.wf(),
                area == self@.area(),
                area <= 0x1000000,
                i <= area,
                match best {
                    Some((bp, bd)) => self@.on_board(bp) && self@.dropoff_at(bp) && bd
                        == self@.dist_spec(pos, bp) && (forall|q: Position|
                        self@.on_board(q) && #[trigger] self@.dropoff_at(q) && self@.idx(q) < i
                            ==> bd <= self@.dist_spec(pos, q)),
                    None => forall|q: Position|
                        self@.on_board(q) && self@.idx(q) < i ==> !(#[trigger] self@.dropoff_at(
                            q,
                        )),
                },
            decreases area - i,
        {
            proof {
                lemma_pos_of_index(i as int, self.width as int, self.height as int);
            }
            let p = Position { x: (i % self.width) as i32, y: (i / self.width) as i32 };
            if self.is_dropoff(p) {
                let d = self.calculate_distance(pos, p);
                let better = match best {
                    Some((_, bd)) => d < bd,
                    None => true,
                };
                if better {
                    best = Some((p, d));
                }
            }
            proof {
                assert forall|q: Position|
                    self@.on_board(q) && #[trigger] self@.dropoff_at(q) && self@.idx(q) < i + 1
                        implies self@.idx(q) < i || q == p by {
                    if self@.idx(q) == i as int {
                        lemma_cell_index_injective(
                            q,
                            p,
                            self.width as int,
                            self.height as int,
                        );
                    }
                }
            }
            i = i + 1;
        }
        proof {
            assert forall|q: Position|
                self@.on_board(q) && #[trigger] self@.dropoff_at(q) implies self@.idx(q)
                < area by {
                lemma_cell_index_in_range(q, self.width as int, self.height as int);
            }
            if best is None {
                let q = choose|q: Position|
                    self@.on_board(q) && #[trigger] self@.dropoff_at(q);
                assert(false);
            }
        }
        best.unwrap().0
    }

    /// The direction a unit should step to approach a destination; the x
    /// axis is routed first, then the y axis, `Still` at the destination.
    pub fn get_dir(&self, source: Position, destination: Position) -> (r: Direction)
        requires
            self@.wf(),
        ensures
            r == route_dir(
                self@.norm_spec(source),
                self@.norm_spec(destination),
                self.width as int,
                self.height as int,
            ),
    {
        let s = self.normalize(source);
        let d = self.normalize(destination);
        route_direction(s, d, self.width as i32, self.height as i32)
    }

    /// Convert a unit into a depot on its cell: the unit and the cell's
    /// resource are absorbed, and the construction cost is settled against
    /// the bank, the unit's cargo and the cell's content.
    pub fn make_dropoff(&mut self, ship_id: ShipId)
        requires
            old(self)@.wf(),
            old(self)@.has_ship(ship_id),
            old(self).constants.dropoff_cost <= old(self).halite + old(self)@.ship_spec(
                ship_id,
            ).1 + old(self)@.cell_spec(old(self)@.ship_spec(ship_id).0),
        ensures
            final(self)@.wf(),
            final(self)@ =~= old(self)@.spec_make_dropoff(ship_id),
    {
        let (pos, hal) = self.ship(ship_id);
        let cell = self.halite(pos);
        self.rm_ship(ship_id);
        proof {
            lemma_cell_index_in_range(pos, self.width as int, self.height as int);
        }
        let pi = (pos.y as usize) * self.width + (pos.x as usize);
        self.dropoffs.set(pi, true);
        self.map.set(pi, 0);
        let gain = hal + cell;
        if self.constants.dropoff_cost >= gain {
            self.halite = self.halite - (self.constants.dropoff_cost - gain);
        } else {
            let extra = gain - self.constants.dropoff_cost;
            if self.halite > usize::MAX - extra {
                self.halite = usize::MAX;
            } else {
                self.halite = self.halite + extra;
            }
        }
    }

    /// Apply a committed action only after checking its legality: the
    /// illegal-command guard. Returns whether the action was applied; an
    /// action for an unknown unit, or one `can_apply` rejects, leaves the
    /// state untouched.
    pub fn try_apply(&mut self, action: Action) -> (ok: bool)
        requires
            old(self)@.wf(),
        ensures
            final(self)@.wf(),
            ok == (old(self)@.has_ship(action.ship_id) && old(self)@.can_apply_spec(action)),
            ok ==> final(self)@ =~= old(self)@.spec_apply(action),
            !ok ==> *final(self) == *old(self),
    {
        if !self.contains_ship(action.ship_id) {
            return false;
        }
        if !self.can_apply(action) {
            return false;
        }
        self.apply(action);
        true
    }

    /// Empty the unit records and the occupancy grid: the synthetic terminal
    /// state appended past all known commitments.
    pub fn blank_units(&mut self)
        requires
            old(self)@.wf(),
        ensures
            final(self)@.wf(),
            final(self)@ =~= (StateModel {
                ships: Seq::<ShipRecord>::empty(),
                taken: Seq::new(old(self)@.taken.len(), |i: int| None::<ShipId>),
                ..old(self)@
            }),
    {
        self.ships = Vec::new();
        let n = self.taken.len();
        let mut taken: Vec<Option<ShipId>> = Vec::new();
        let mut i: usize = 0;
        while i < n
            invariant
                i <= n,
                taken@.len() == i,
                forall|j: int| 0 <= j < i ==> (#[trigger] taken@[j]) is None,
            decreases n - i,
        {
            taken.push(None);
            i = i + 1;
        }
        self.taken = taken;
        proof {
            assert(self.taken@ =~= Seq::new(old(self)@.taken.len(), |i: int| None::<ShipId>));
        }
    }

    /// Apply a committed action: staying mines, anything else moves.
    pub fn apply(&mut self, action: Action)
        requires
            old(self)@.wf(),
            old(self)@.has_ship(action.ship_id),
            old(self)@.can_apply_spec(action),
        ensures
            final(self)@.wf(),
            final(self)@ =~= old(self)@.spec_apply(action),
    {
        match action.dir {
            Direction::Still => self.mine_ship(action.ship_id),
            dir => self.move_ship(action.ship_id, dir),
        }
    }
}

/// The number of hazard cells within `radius` of `p` (toroidal distance),
/// among the first `k` cells of the hazard grid.
pub open spec fn count_hazard_near(
    grid: Seq<Option<usize>>,
    p: Position,
    radius: int,
    w: int,
    h: int,
    k: int,
) -> int
    decreases k,
{
    if k <= 0 {
        0
    } else {
        count_hazard_near(grid, p, radius, w, h, k - 1) + if grid[k - 1] is Some && toroidal_dist(
            p,
            pos_of_index(k - 1, w),
            w,
            h,
        ) <= radius {
            1int
        } else {
            0int
        }
    }
}

impl State {
    /// Build the engine's turn-zero state from a fresh snapshot: cells are
    /// copied, no friendly unit is registered yet, hazards are the cells
    /// under enemy units, bonus eligibility is derived from the hazard
    /// density around each cell, and the depots are the controlled player's
    /// home cell and constructed outposts.
    pub fn from(game: &crate::game::Game) -> (r: State)
        requires
            game.wf(),
        ensures
            r@.wf(),
            r.width == game.width,
            r.height == game.height,
            r.turn == game.turn_number,
            r.start == game.turn_number,
            r.num_players == game.players@.len(),
            r.constants == game.constants,
            r.map@ =~= game.cells@,
            r.ships@ =~= Seq::<ShipRecord>::empty(),
            forall|i: int| 0 <= i < r.taken@.len() ==> #[trigger] r.taken@[i] is None,
            r.halite == game.players@[game.my_player_index()].halite,
            forall|i: int|
                0 <= i < r@.area() ==> ((#[trigger] r.enemies@[i]) is Some <==> exists|j: int|
                    0 <= j < game.ships@.len() && (#[trigger] game.ships@[j]).owner != game.my_id
                        && cell_index(game.ships@[j].position, game.width as int) == i),
            forall|i: int|
                0 <= i < r@.area() ==> ((#[trigger] r.inspired@[i]) <==> (
                game.constants.inspiration_ship_count >= 1 && count_hazard_near(
                    r.enemies@,
                    pos_of_index(i, game.width as int),
                    game.constants.inspiration_radius as int,
                    game.width as int,
                    game.height as int,
                    r@.area(),
                ) >= game.constants.inspiration_ship_count)),
            forall|i: int|
                0 <= i < r@.area() ==> ((#[trigger] r.dropoffs@[i]) <==> (cell_index(
                    game.players@[game.my_player_index()].shipyard,
                    game.width as int,
                ) == i || exists|j: int, k: int|
                    0 <= j < game.dropoffs@.len() && 0 <= k < game.players@[
                        game.my_player_index()
                    ].dropoff_ids@.len() && (#[trigger] game.dropoffs@[j]).id == (
                    #[trigger] game.players@[game.my_player_index()].dropoff_ids@[k])
                        && cell_index(game.dropoffs@[j].position, game.width as int) == i)),
    {
        proof {
            assert(game.width * game.height <= 0x1000000) by (nonlinear_arith)
                requires 1 <= game.width <= 0x1000, 1 <= game.height <= 0x1000,
            ;
        }
        let ghost gm = *game;
        let area = game.width * game.height;
        let map = copy_vec(&game.cells);
        let mut taken: Vec<Option<ShipId>> = Vec::new();
        let mut i: usize = 0;
        while i < area
            invariant
                i <= area,
                taken@.len() == i,
                forall|j: int| 0 <= j < i ==> #[trigger] taken@[j] is None,
            decreases area - i,
        {
            taken.push(None);
            i = i + 1;
        }
        let mut enemies: Vec<Option<usize>> = Vec::new();
        let mut i: usize = 0;
        while i < area
            invariant
                i <= area,
                enemies@.len() == i,
                forall|j: int| 0 <= j < i ==> #[trigger] enemies@[j] is None,
            decreases area - i,
        {
            enemies.push(None);
            i = i + 1;
        }
        let mut s: usize = 0;
        while s < game.ships.len()
            invariant
                game.wf(),
                area == game.width * game.height,
                area <= 0x1000000,
                enemies@.len() == area,
                s <= game.ships@.len(),
                forall|i: int|
                    0 <= i < area ==> ((#[trigger] enemies@[i]) is Some <==> exists|j: int|
                        0 <= j < s && (#[trigger] game.ships@[j]).owner != game.my_id
                            && cell_index(game.ships@[j].position, game.width as int) == i),
                forall|i: int|
                    0 <= i < area ==> ((#[trigger] enemies@[i]) matches Some(v) ==> v <= 0x10000),
            decreases game.ships@.len() - s,
        {
            let ship = &game.ships[s];
            if ship.owner.0 != game.my_id.0 {
                proof {
                    lemma_cell_index_in_range(
                        ship.position,
                        game.width as int,
                        game.height as int,
                    );
                }
                let pi = (ship.position.y as usize) * game.width + (ship.position.x as usize);
                let hal = if ship.halite <= 0x10000 {
                    ship.halite
                } else {
                    0x10000
                };
                enemies.set(pi, Some(hal));
            }
            s = s + 1;
        }
        let mut inspired: Vec<bool> = Vec::new();
        let mut i: usize = 0;
        while i < area
            invariant
                game.wf(),
                area == game.width * game.height,
                area <= 0x1000000,
                enemies@.len() == area,
                i <= area,
                inspired@.len() == i,
                forall|j: int|
                    0 <= j < i ==> ((#[trigger] inspired@[j]) <==> (
                    game.constants.inspiration_ship_count >= 1 && count_hazard_near(
                        enemies@,
                        pos_of_index(j, game.width as int),
                        game.constants.inspiration_radius as int,
                        game.width as int,
                        game.height as int,
                        area as int,
                    ) >= game.constants.inspiration_ship_count)),
            decreases area - i,
        {
            proof {
                lemma_pos_of_index(i as int, game.width as int, game.height as int);
            }
            let p = Position { x: (i % game.width) as i32, y: (i / game.width) as i32 };
            let mut count: usize = 0;
            let mut j: usize = 0;
            while j < area
                invariant
                    game.wf(),
                    area == game.width * game.height,
                    area <= 0x1000000,
                    enemies@.len() == area,
                    j <= area,
                    p == pos_of_index(i as int, game.width as int),
                    pos_on_board(p, game.width as int, game.height as int),
                    count == count_hazard_near(
                        enemies@,
                        p,
                        game.constants.inspiration_radius as int,
                        game.width as int,
                        game.height as int,
                        j as int,
                    ),
                    count <= j,
                decreases area - j,
            {
                if enemies[j].is_some() {
                    proof {
                        lemma_pos_of_index(j as int, game.width as int, game.height as int);
                    }
                    let q = Position {
                        x: (j % game.width) as i32,
                        y: (j / game.width) as i32,
                    };
                    let d = crate::grid::toroidal_distance(
                        p,
                        q,
                        game.width as i32,
                        game.height as i32,
                    );
                    if d <= game.constants.inspiration_radius {
                        count = count + 1;
                    }
                }
                j = j + 1;
            }
            let eligible = game.constants.inspiration_ship_count >= 1 && count
                >= game.constants.inspiration_ship_count;
            inspired.push(eligible);
            i = i + 1;
        }
        let me = game.me();
        let ghost me_idx = choose|ix: int|
            0 <= ix < game.players@.len() && game.players@[ix] == *me;
        proof {
            let w = game.my_player_index();
            assert(0 <= w < game.players@.len() && game.players@[w].id == game.my_id);
            assert(game.players@[me_idx].id == game.my_id);
            if w < me_idx {
                assert(game.players@[w].id != game.players@[me_idx].id);
            } else if me_idx < w {
                assert(game.players@[me_idx].id != game.players@[w].id);
            }
            assert(game.players@[w] == *me);
        }
        let mut dropoffs: Vec<bool> = Vec::new();
        let mut i: usize = 0;
        while i < area
            invariant
                i <= area,
                dropoffs@.len() == i,
                forall|j: int| 0 <= j < i ==> !(#[trigger] dropoffs@[j]),
            decreases area - i,
        {
            dropoffs.push(false);
            i = i + 1;
        }
        proof {
            lemma_cell_index_in_range(me.shipyard, game.width as int, game.height as int);
        }
        let yard = (me.shipyard.y as usize) * game.width + (me.shipyard.x as usize);
        dropoffs.set(yard, true);
        let mut k: usize = 0;
        while k < me.dropoff_ids.len()
            invariant
                game.wf(),
                area == game.width * game.height,
                area <= 0x1000000,
                dropoffs@.len() == area,
                k <= me.dropoff_ids@.len(),
                exists|ix: int| 0 <= ix < game.players@.len() && game.players@[ix] == *me,
                me.id == game.my_id,
                yard == cell_index(me.shipyard, game.width as int),
                yard < area,
                dropoffs@[yard as int],
                forall|i: int|
                    0 <= i < area ==> ((#[trigger] dropoffs@[i]) <==> (yard as int == i || exists|
                        j: int,
                        kk: int,
                    |
                        0 <= j < game.dropoffs@.len() && 0 <= kk < k && (
                        #[trigger] game.dropoffs@[j]).id == (#[trigger] me.dropoff_ids@[kk])
                            && cell_index(game.dropoffs@[j].position, game.width as int) == i)),
            decreases me.dropoff_ids@.len() - k,
        {
            let did = me.dropoff_ids[k];
            match game.dropoff_by_id(did) {
                Some(d) => {
                    proof {
                        lemma_cell_index_in_range(
                            d.position,
                            game.width as int,
                            game.height as int,
                        );
                    }
                    let pi = (d.position.y as usize) * game.width + (d.position.x as usize);
                    let ghost old_grid = dropoffs@;
                    dropoffs.set(pi, true);
                    proof {
                        let jd = choose|ji: int|
                            0 <= ji < game.dropoffs@.len() && game.dropoffs@[ji] == *d && d.id
                                == did;
                        assert forall|i: int|
                            0 <= i < area implies ((#[trigger] dropoffs@[i]) <==> (yard as int == i
                            || exists|j: int, kk: int|
                            0 <= j < game.dropoffs@.len() && 0 <= kk < k + 1 && (
                            #[trigger] game.dropoffs@[j]).id == (#[trigger] me.dropoff_ids@[kk])
                                && cell_index(game.dropoffs@[j].position, game.width as int)
                                == i)) by {
                            if i == pi as int {
                                assert(game.dropoffs@[jd].id == me.dropoff_ids@[k as int]);
                                assert(cell_index(game.dropoffs@[jd].position, game.width as int)
                                    == i);
                            } else {
                                assert(dropoffs@[i] == old_grid[i]);
                                if exists|j: int, kk: int|
                                    0 <= j < game.dropoffs@.len() && 0 <= kk < k + 1 && (
                                    #[trigger] game.dropoffs@[j]).id == (
                                    #[trigger] me.dropoff_ids@[kk]) && cell_index(
                                        game.dropoffs@[j].position,
                                        game.width as int,
                                    ) == i {
                                    let (j, kk): (int, int) = choose|j: int, kk: int|
                                        0 <= j < game.dropoffs@.len() && 0 <= kk < k + 1 && (
                                        #[trigger] game.dropoffs@[j]).id == (
                                        #[trigger] me.dropoff_ids@[kk]) && cell_index(
                                            game.dropoffs@[j].position,
                                            game.width as int,
                                        ) == i;
                                    if kk == k as int {
                                        if j < jd {
                                            assert(game.dropoffs@[j].id != game.dropoffs@[jd].id);
                                        } else if jd < j {
                                            assert(game.dropoffs@[jd].id != game.dropoffs@[j].id);
                                        }
                                        assert(j == jd);
                                        assert(false);
                                    }
                                }
                            }
                        }
                    }
                },
                None => {
                    proof {
                        assert forall|i: int|
                            0 <= i < area implies ((#[trigger] dropoffs@[i]) <==> (yard as int == i
                            || exists|j: int, kk: int|
                            0 <= j < game.dropoffs@.len() && 0 <= kk < k + 1 && (
                            #[trigger] game.dropoffs@[j]).id == (#[trigger] me.dropoff_ids@[kk])
                                && cell_index(game.dropoffs@[j].position, game.width as int)
                                == i)) by {
                            if exists|j: int, kk: int|
                                0 <= j < game.dropoffs@.len() && 0 <= kk < k + 1 && (
                                #[trigger] game.dropoffs@[j]).id == (#[trigger] me.dropoff_ids@[kk])
                                    && cell_index(game.dropoffs@[j].position, game.width as int)
                                    == i {
                                let (j, kk): (int, int) = choose|j: int, kk: int|
                                    0 <= j < game.dropoffs@.len() && 0 <= kk < k + 1 && (
                                    #[trigger] game.dropoffs@[j]).id == (
                                    #[trigger] me.dropoff_ids@[kk]) && cell_index(
                                        game.dropoffs@[j].position,
                                        game.width as int,
                                    ) == i;
                                if kk == k as int {
                                    assert(game.dropoffs@[j].id != did);
                                    assert(false);
                                }
                            }
                        }
                    }
                },
            }
            k = k + 1;
        }
        State {
            map,
            ships: Vec::new(),
            taken,
            enemies,
            inspired,
            dropoffs,
            num_players: game.players.len(),
            halite: me.halite,
            width: game.width,
            height: game.height,
            turn: game.turn_number,
            start: game.turn_number,
            constants: game.constants,
        }
    }
}

/// The total resource held by the board's cells.
pub open spec fn sum_cells(s: Seq<usize>) -> int
    decreases s.len(),
{
    if s.len() == 0 {
        0
    } else {
        sum_cells(s.drop_last()) + s.last()
    }
}

/// The total cargo held by the units.
pub open spec fn sum_cargo(s: Seq<ShipRecord>) -> int
    decreases s.len(),
{
    if s.len() == 0 {
        0
    } else {
        sum_cargo(s.drop_last()) + s.last().halite
    }
}

/// Replacing one entry changes a sum by exactly the difference.
pub proof fn lemma_sum_cells_update(s: Seq<usize>, i: int, v: usize)
    requires
        0 <= i < s.len(),
    ensures
        sum_cells(s.update(i, v)) == sum_cells(s) - s[i] + v,
    decreases s.len(),
{
    if i == s.len() - 1 {
        assert(s.update(i, v).drop_last() =~= s.drop_last());
    } else {
        assert(s.update(i, v).drop_last() =~= s.drop_last().update(i, v));
        lemma_sum_cells_update(s.drop_last(), i, v);
    }
}

pub proof fn lemma_sum_cargo_update(s: Seq<ShipRecord>, i: int, r: ShipRecord)
    requires
        0 <= i < s.len(),
    ensures
        sum_cargo(s.update(i, r)) == sum_cargo(s) - s[i].halite + r.halite,
    decreases s.len(),
{
    if i == s.len() - 1 {
        assert(s.update(i, r).drop_last() =~= s.drop_last());
    } else {
        assert(s.update(i, r).drop_last() =~= s.drop_last().update(i, r));
        lemma_sum_cargo_update(s.drop_last(), i, r);
    }
}

/// Resource conservation: a mining step moves resource from the cell to the
/// unit's cargo and nowhere else, so the combined total of all cells and all
/// cargo is exactly invariant. (The extraction formula's integer rounding
/// loses nothing here: whatever leaves the cell enters the cargo, so the
/// loss is zero, within the `extract_ratio - 1` per-step bound.) A move that
/// burns a departure cost, and a deposit into the bank, are the two actions
/// that do change this total.
pub proof fn lemma_mining_conserves_total(m: StateModel, id: ShipId)
    requires
        m.wf(),
        m.has_ship(id),
    ensures
        sum_cells(m.spec_mine_ship(id).map) + sum_cargo(m.spec_mine_ship(id).ships) == sum_cells(
            m.map,
        ) + sum_cargo(m.ships),
        m.spec_mine_ship(id).halite == m.halite,
{
    let pos = m.ship_spec(id).0;
    let hal = m.ship_spec(id).1;
    let cell = m.cell_spec(pos);
    let i = m.ship_index(id);
    assert(0 <= i < m.ships.len() && m.ships[i].id == id);
    lemma_cell_index_in_range(pos, m.width as int, m.height as int);
    let mined = spec_mined_amount(cell, hal as int, m.inspired_at(pos), m.constants);
    assert(mined >= 0) by {
        assert(spec_div_ceil(cell, m.constants.extract_ratio as int) >= 0) by (nonlinear_arith)
            requires 1 <= m.constants.extract_ratio, 0 <= cell,
        ;
        assert(spec_div_ceil(cell, m.constants.extract_ratio as int) * (
        m.constants.inspired_bonus_multiplier as int) >= 0) by (nonlinear_arith)
            requires
                spec_div_ceil(cell, m.constants.extract_ratio as int) >= 0,
                m.constants.inspired_bonus_multiplier >= 0,
        ;
    }
    let m1 = m.spec_update_hal(pos, (cell - mined) as usize);
    let m2 = m1.spec_update_ship(id, pos, (hal + mined) as usize);
    lemma_sum_cells_update(m.map, m.idx(pos), (cell - mined) as usize);
    lemma_ship_index_is(m1, id, i);
    lemma_sum_cargo_update(
        m1.ships,
        i,
        ShipRecord { id, pos, halite: (hal + mined) as usize },
    );
    assert(m.spec_mine_ship(id).map == m2.map && m.spec_mine_ship(id).ships == m2.ships);
}

/// Resource conservation over a whole sequence of mining steps.
pub open spec fn spec_mine_many(m: StateModel, ids: Seq<ShipId>) -> StateModel
    decreases ids.len(),
{
    if ids.len() == 0 {
        m
    } else {
        spec_mine_many(m, ids.drop_last()).spec_mine_ship(ids.last())
    }
}

/// Mining keeps the state well formed and keeps every unit known.
pub proof fn lemma_mine_preserves(m: StateModel, id: ShipId)
    requires
        m.wf(),
        m.has_ship(id),
    ensures
        m.spec_mine_ship(id).wf(),
        forall|id2: ShipId| m.has_ship(id2) == #[trigger] m.spec_mine_ship(id).has_ship(id2),
{
    let pos = m.ship_spec(id).0;
    let hal = m.ship_spec(id).1;
    let cell = m.cell_spec(pos);
    let i = m.ship_index(id);
    assert(0 <= i < m.ships.len() && m.ships[i].id == id);
    lemma_cell_index_in_range(pos, m.width as int, m.height as int);
    let mined = spec_mined_amount(cell, hal as int, m.inspired_at(pos), m.constants);
    assert(mined >= 0) by {
        assert(spec_div_ceil(cell, m.constants.extract_ratio as int) >= 0) by (nonlinear_arith)
            requires 1 <= m.constants.extract_ratio, 0 <= cell,
        ;
        assert(spec_div_ceil(cell, m.constants.extract_ratio as int) * (
        m.constants.inspired_bonus_multiplier as int) >= 0) by (nonlinear_arith)
            requires
                spec_div_ceil(cell, m.constants.extract_ratio as int) >= 0,
                m.constants.inspired_bonus_multiplier >= 0,
        ;
    }
    let m1 = m.spec_update_hal(pos, (cell - mined) as usize);
    lemma_ship_index_is(m1, id, i);
    lemma_update_ship_wf(m1, id, pos, (hal + mined) as usize);
    let m2 = m.spec_mine_ship(id);
    assert forall|id2: ShipId| m.has_ship(id2) == #[trigger] m2.has_ship(id2) by {
        if m.has_ship(id2) {
            let j = m.ship_index(id2);
            assert(m.ships[j].id == id2);
            assert(m2.ships[j].id == id2);
        }
        if m2.has_ship(id2) {
            let j = m2.ship_index(id2);
            assert(m2.ships[j].id == id2);
            assert(m.ships[j].id == id2);
        }
    }
}

/// Resource conservation for any sequence of mining steps: the combined
/// total of all cells and all cargo is exactly invariant, and the bank never
/// changes.
pub proof fn lemma_mining_sequence_conserves_total(m: StateModel, ids: Seq<ShipId>)
    requires
        m.wf(),
        forall|k: int| 0 <= k < ids.len() ==> m.has_ship(#[trigger] ids[k]),
    ensures
        sum_cells(spec_mine_many(m, ids).map) + sum_cargo(spec_mine_many(m, ids).ships)
            == sum_cells(m.map) + sum_cargo(m.ships),
        spec_mine_many(m, ids).halite == m.halite,
        spec_mine_many(m, ids).wf(),
        forall|id2: ShipId| m.has_ship(id2) == #[trigger] spec_mine_many(m, ids).has_ship(id2),
    decreases ids.len(),
{
    if ids.len() == 0 {
    } else {
        lemma_mining_sequence_conserves_total(m, ids.drop_last());
        let mprev = spec_mine_many(m, ids.drop_last());
        assert(m.has_ship(ids.last()));
        assert(mprev.has_ship(ids.last()));
        lemma_mining_conserves_total(mprev, ids.last());
        lemma_mine_preserves(mprev, ids.last());
    }
}


/// Replaying one turn's worth of committed actions against a state: each
/// action is applied exactly when its unit is known and `can_apply` accepts
/// it, in order; anything else leaves the state unchanged (and, in the
/// engine, poisons the plan).
pub open spec fn fold_step(m: StateModel, acts: Seq<Action>) -> StateModel
    decreases acts.len(),
{
    if acts.len() == 0 {
        m
    } else {
        let prev = fold_step(m, acts.drop_last());
        let a = acts.last();
        if prev.has_ship(a.ship_id) && prev.can_apply_spec(a) {
            prev.spec_apply(a)
        } else {
            prev
        }
    }
}

/// Folding a turn's actions never changes the board's frame: dimensions,
/// clock and ruleset are those of the starting state.
pub proof fn lemma_fold_step_frame(m: StateModel, acts: Seq<Action>)
    ensures
        fold_step(m, acts).width == m.width,
        fold_step(m, acts).height == m.height,
        fold_step(m, acts).turn == m.turn,
        fold_step(m, acts).start == m.start,
        fold_step(m, acts).constants == m.constants,
    decreases acts.len(),
{
    if acts.len() == 0 {
    } else {
        lemma_fold_step_frame(m, acts.drop_last());
    }
}

impl State {
    /// Replay one turn's worth of committed actions in order: each is
    /// applied exactly when legal, per [`fold_step`]. For each action the
    /// result records whether it was applied and, if so, the cell its unit
    /// stood on just before.
    pub fn replay_turn(&mut self, acts: &Vec<Action>) -> (r: Vec<(bool, Position)>)
        requires
            old(self)@.wf(),
        ensures
            final(self)@.wf(),
            final(self)@ =~= fold_step(old(self)@, acts@),
            r@.len() == acts@.len(),
            forall|k: int|
                0 <= k < acts@.len() ==> (#[trigger] r@[k]).0 == (fold_step(
                    old(self)@,
                    acts@.take(k),
                ).has_ship(acts@[k].ship_id) && fold_step(old(self)@, acts@.take(k)).can_apply_spec(
                    acts@[k],
                )),
            forall|k: int|
                0 <= k < acts@.len() && (#[trigger] r@[k]).0 ==> pos_on_board(
                    r@[k].1,
                    old(self)@.width as int,
                    old(self)@.height as int,
                ) && r@[k].1 == fold_step(old(self)@, acts@.take(k)).ship_spec(
                    acts@[k].ship_id,
                ).0,
    {
        let mut r: Vec<(bool, Position)> = Vec::new();
        let mut k: usize = 0;
        proof {
            assert(acts@.take(0) =~= Seq::<Action>::empty());
        }
        while k < acts.len()
            invariant
                self@.wf(),
                k <= acts@.len(),
                self@ =~= fold_step(old(self)@, acts@.take(k as int)),
                self@.width == old(self)@.width,
                self@.height == old(self)@.height,
                r@.len() == k,
                forall|j: int|
                    0 <= j < k ==> (#[trigger] r@[j]).0 == (fold_step(
                        old(self)@,
                        acts@.take(j),
                    ).has_ship(acts@[j].ship_id) && fold_step(
                        old(self)@,
                        acts@.take(j),
                    ).can_apply_spec(acts@[j])),
                forall|j: int|
                    0 <= j < k && (#[trigger] r@[j]).0 ==> pos_on_board(
                        r@[j].1,
                        old(self)@.width as int,
                        old(self)@.height as int,
                    ) && r@[j].1 == fold_step(old(self)@, acts@.take(j)).ship_spec(
                        acts@[j].ship_id,
                    ).0,
            decreases acts@.len() - k,
        {
            let action = acts[k];
            let had = self.contains_ship(action.ship_id);
            let pos = if had {
                self.ship(action.ship_id).0
            } else {
                Position { x: 0, y: 0 }
            };
            let ok = self.try_apply(action);
            proof {
                assert(acts@.take(k as int + 1).drop_last() =~= acts@.take(k as int));
                assert(acts@.take(k as int + 1).last() == acts@[k as int]);
            }
            r.push((ok, pos));
            k = k + 1;
        }
        proof {
            assert(acts@.take(acts@.len() as int) =~= acts@);
        }
        r
    }
}

/// Relocating a unit preserves well-formedness.
proof fn lemma_update_ship_wf(m: StateModel, id: ShipId, pos: Position, hal: usize)
    requires
        m.wf(),
        m.has_ship(id),
        m.on_board(pos),
        hal <= m.constants.max_halite,
    ensures
        m.spec_update_ship(id, pos, hal).wf(),
{
    let m2 = m.spec_update_ship(id, pos, hal);
    let i = m.ship_index(id);
    assert(0 <= i < m.ships.len() && m.ships[i].id == id);
    let op = m.ship_spec(id).0;
    lemma_cell_index_in_range(op, m.width as int, m.height as int);
    lemma_cell_index_in_range(pos, m.width as int, m.height as int);
    assert(m2.ships =~= m.ships.update(i, ShipRecord { id, pos, halite: hal }));
    assert forall|a: int, b: int|
        0 <= a < b < m2.ships.len() implies (#[trigger] m2.ships[a]).id != (
    #[trigger] m2.ships[b]).id by {
        assert(m.ships[a].id != m.ships[b].id);
    }
    lemma_ship_index_is(m2, id, i);
    assert(m2.ship_spec(id) == (pos, hal));
}

} // verus!
