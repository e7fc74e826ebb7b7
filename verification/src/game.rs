//! The per-turn snapshot delivered by the transport collaborator, as plain
//! values: board cells, every unit, every depot, every player, and the
//! ruleset constants. The engine rebuilds all other state from this each turn.

use vstd::prelude::*;
use crate::grid::Position;
use crate::ids::{PlayerId, DropoffId, ShipId};
use crate::constants::Constants;

verus! {

#[derive(Clone, Debug)]
pub struct Ship {
    pub id: ShipId,
    pub owner: PlayerId,
    pub position: Position,
    pub halite: usize,
}

#[derive(Clone, Debug)]
pub struct Dropoff {
    pub id: DropoffId,
    pub owner: PlayerId,
    pub position: Position,
}

#[derive(Clone, Debug)]
pub struct Player {
    pub id: PlayerId,
    pub halite: usize,
    pub shipyard: Position,
    pub ship_ids: Vec<ShipId>,
    pub dropoff_ids: Vec<DropoffId>,
}

#[derive(Clone, Debug)]
pub struct Game {
    pub width: usize,
    pub height: usize,
    pub turn_number: usize,
    pub my_id: PlayerId,
    pub constants: Constants,
    /// Row-major cell resource quantities, one entry per board cell.
    pub cells: Vec<usize>,
    pub players: Vec<Player>,
    pub ships: Vec<Ship>,
    pub dropoffs: Vec<Dropoff>,
}

/// Row-major index of a normalized position.
pub open spec fn cell_index(p: Position, w: int) -> int {
    p.y * w + p.x
}

/// The position with the given row-major index.
pub open spec fn pos_of_index(i: int, w: int) -> Position {
    Position { x: (i % w) as i32, y: (i / w) as i32 }
}

/// `pos_of_index` inverts `cell_index` on the board.
pub proof fn lemma_pos_of_index(i: int, w: int, h: int)
    requires
        1 <= w <= 0x1000,
        1 <= h <= 0x1000,
        0 <= i < w * h,
    ensures
        pos_on_board(pos_of_index(i, w), w, h),
        cell_index(pos_of_index(i, w), w) == i,
{
    vstd::arithmetic::div_mod::lemma_fundamental_div_mod(i, w);
    assert(0 <= i % w < w) by (nonlinear_arith)
        requires 1 <= w, 0 <= i,
    ;
    assert(0 <= i / w < h) by (nonlinear_arith)
        requires 1 <= w, 0 <= i < w * h, i == w * (i / w) + i % w, 0 <= i % w < w,
    ;
    assert((i / w) * w + i % w == i) by (nonlinear_arith)
        requires i == w * (i / w) + i % w,
    ;
}

pub open spec fn pos_on_board(p: Position, w: int, h: int) -> bool {
    &&& 0 <= p.x < w
    &&& 0 <= p.y < h
}

/// A position on a bounded board has a cell index within the cell array.
pub proof fn lemma_cell_index_in_range(p: Position, w: int, h: int)
    requires
        1 <= w <= 0x1000,
        1 <= h <= 0x1000,
        pos_on_board(p, w, h),
    ensures
        0 <= cell_index(p, w) < w * h,
        cell_index(p, w) < 0x1000000,
{
    assert(0 <= p.y * w + p.x < w * h && w * h <= 0x1000000) by (nonlinear_arith)
        requires 0 <= p.x < w, 0 <= p.y < h, 1 <= w <= 0x1000, 1 <= h <= 0x1000,
    ;
}

/// One per-unit command emitted to the transport collaborator at the end of
/// a turn, plus the optional spawn command.
#[derive(PartialEq, Eq, Structural, Clone, Copy, Debug)]
pub enum Command {
    Move(ShipId, crate::grid::Direction),
    Convert(ShipId),
    Spawn,
}

/// Whether a command is addressed to the given unit.
pub open spec fn command_names(c: Command, id: ShipId) -> bool {
    match c {
        Command::Move(i, _) => i == id,
        Command::Convert(i) => i == id,
        Command::Spawn => false,
    }
}

impl Command {
    /// The command moving a unit one step (or holding it still).
    pub fn move_ship(id: ShipId, d: crate::grid::Direction) -> (r: Command)
        ensures
            r == Command::Move(id, d),
    {
        Command::Move(id, d)
    }

    /// The command converting a unit into a depot on its cell.
    pub fn transform_ship_into_dropoff_site(id: ShipId) -> (r: Command)
        ensures
            r == Command::Convert(id),
    {
        Command::Convert(id)
    }

    /// The command spawning a new unit on the home cell.
    pub fn spawn_ship() -> (r: Command)
        ensures
            r == Command::Spawn,
    {
        Command::Spawn
    }
}

impl Game {
    pub open spec fn my_player_index(self) -> int {
        choose|i: int| 0 <= i < self.players@.len() && self.players@[i].id == self.my_id
    }

    pub open spec fn has_my_player(self) -> bool {
        exists|i: int| 0 <= i < self.players@.len() && self.players@[i].id == self.my_id
    }

    /// Well-formedness of a snapshot: board dimensions are positive and
    /// bounded, the cell array covers the board, every quantity respects the
    /// ruleset bounds, unit ids are unique, and the controlled player exists.
    pub open spec fn wf(self) -> bool {
        &&& 1 <= self.width <= 0x1000
        &&& 1 <= self.height <= 0x1000
        &&& self.cells@.len() == self.width * self.height
        &&& forall|i: int|
            0 <= i < self.cells@.len() ==> #[trigger] self.cells@[i] <= 0x10000
        &&& self.constants.wf()
        &&& self.turn_number <= self.constants.max_turns
        &&& self.has_my_player()
        &&& forall|i: int, j: int|
            0 <= i < j < self.players@.len() ==> (#[trigger] self.players@[i]).id != (
            #[trigger] self.players@[j]).id
        &&& self.ships@.len() <= 0x1000
        &&& forall|i: int, j: int|
            0 <= i < j < self.ships@.len() ==> (#[trigger] self.ships@[i]).id != (
            #[trigger] self.ships@[j]).id
        &&& forall|i: int|
            0 <= i < self.ships@.len() ==> pos_on_board(
                (#[trigger] self.ships@[i]).position,
                self.width as int,
                self.height as int,
            ) && self.ships@[i].halite <= self.constants.max_halite
        &&& forall|i: int, j: int|
            0 <= i < j < self.dropoffs@.len() ==> (#[trigger] self.dropoffs@[i]).id != (
            #[trigger] self.dropoffs@[j]).id
        &&& forall|i: int|
            0 <= i < self.dropoffs@.len() ==> pos_on_board(
                (#[trigger] self.dropoffs@[i]).position,
                self.width as int,
                self.height as int,
            )
        &&& forall|i: int|
            0 <= i < self.players@.len() ==> pos_on_board(
                (#[trigger] self.players@[i]).shipyard,
                self.width as int,
                self.height as int,
            )
    }

    /// The resource quantity at a normalized position.
    pub fn cell_at(&self, p: Position) -> (r: usize)
        requires
            self.wf(),
            pos_on_board(p, self.width as int, self.height as int),
        ensures
            r == self.cells@[cell_index(p, self.width as int)],
            r <= 0x10000,
    {
        proof {
            lemma_cell_index_in_range(p, self.width as int, self.height as int);
        }
        self.cells[(p.y as usize) * self.width + (p.x as usize)]
    }

    /// Look up a ship by id.
    pub fn ship_by_id(&self, id: ShipId) -> (r: Option<&Ship>)
        ensures
            match r {
                Some(s) => exists|i: int|
                    0 <= i < self.ships@.len() && self.ships@[i] == *s && s.id == id,
                None => forall|i: int|
                    0 <= i < self.ships@.len() ==> (#[trigger] self.ships@[i]).id != id,
            },
    {
        let mut i: usize = 0;
        while i < self.ships.len()
            invariant
                i <= self.ships@.len(),
                forall|j: int| 0 <= j < i ==> (#[trigger] self.ships@[j]).id != id,
            decreases self.ships@.len() - i,
        {
            if self.ships[i].id.0 == id.0 {
                return Some(&self.ships[i]);
            }
            i = i + 1;
        }
        None
    }

    /// Look up the controlled player.
    pub fn me(&self) -> (r: &Player)
        requires
            self.wf(),
        ensures
            exists|i: int| 0 <= i < self.players@.len() && self.players@[i] == *r,
            r.id == self.my_id,
    {
        let mut i: usize = 0;
        while i < self.players.len()
            invariant
                self.has_my_player(),
                i <= self.players@.len(),
                forall|j: int| 0 <= j < i ==> (#[trigger] self.players@[j]).id != self.my_id,
            decreases self.players@.len() - i,
        {
            if self.players[i].id.0 == self.my_id.0 {
                return &self.players[i];
            }
            i = i + 1;
        }
        proof {
            let w = choose|k: int|
                0 <= k < self.players@.len() && self.players@[k].id == self.my_id;
            assert(false);
        }
        unreached()
    }

    /// Look up a dropoff by id.
    pub fn dropoff_by_id(&self, id: DropoffId) -> (r: Option<&Dropoff>)
        ensures
            match r {
                Some(d) => exists|i: int|
                    0 <= i < self.dropoffs@.len() && self.dropoffs@[i] == *d && d.id == id,
                None => forall|i: int|
                    0 <= i < self.dropoffs@.len() ==> (#[trigger] self.dropoffs@[i]).id != id,
            },
    {
        let mut i: usize = 0;
        while i < self.dropoffs.len()
            invariant
                i <= self.dropoffs@.len(),
                forall|j: int| 0 <= j < i ==> (#[trigger] self.dropoffs@[j]).id != id,
            decreases self.dropoffs@.len() - i,
        {
            if self.dropoffs[i].id.0 == id.0 {
                return Some(&self.dropoffs[i]);
            }
            i = i + 1;
        }
        None
    }
}

} // verus!
