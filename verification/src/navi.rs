//! The local collision arbiter: resolves, for the current turn only,
//! contention among units whose committed plan step could not be applied.
//! Each unit files a request (its cell and candidate directions in priority
//! order); arbitration runs a work-list to a fixed point: a unit moves when
//! its target cell is free, two units exchange cells when each wants the
//! other's (the only two-party primitive), and anything unresolved stays
//! still. No two distinct units are ever assigned the same destination
//! cell, except on a depot during the terminal phase.

use vstd::prelude::*;
use crate::game::{Game, cell_index, pos_on_board, lemma_cell_index_in_range};
use crate::grid::{Position, Direction, offset_spec, norm1, route_dir_x, route_dir_y};
use crate::ids::ShipId;

verus! {

/// One unit's request: where it stands and which steps it would accept, in
/// priority order.
pub struct MoveRequest {
    pub ship_id: ShipId,
    pub pos: Position,
    pub dirs: Vec<Direction>,
}

pub struct Navi {
    pub width: usize,
    pub height: usize,
    /// Pending requests, id-unique, one per cell.
    pub moving: Vec<MoveRequest>,
    /// The occupancy grid mirroring the real current-turn board.
    pub occupied: Vec<Vec<Option<ShipId>>>,
    /// During the terminal phase depot cells accept any number of units.
    pub terminal: bool,
    /// Depot cells, row-major.
    pub dropoffs: Vec<bool>,
}

impl Navi {
    pub open spec fn on_board(self, p: Position) -> bool {
        pos_on_board(p, self.width as int, self.height as int)
    }

    pub open spec fn grid_at(self, p: Position) -> Option<ShipId> {
        self.occupied@[p.y as int]@[p.x as int]
    }

    pub open spec fn dropoff_at(self, p: Position) -> bool {
        self.dropoffs@[cell_index(p, self.width as int)]
    }

    pub open spec fn norm_spec(self, p: Position) -> Position {
        Position {
            x: norm1(p.x as int, self.width as int) as i32,
            y: norm1(p.y as int, self.height as int) as i32,
        }
    }

    /// A cell is safe to enter if it is unoccupied, or if it is a depot
    /// during the terminal phase.
    pub open spec fn safe_spec(self, p: Position) -> bool {
        (self.terminal && self.dropoff_at(p)) || self.grid_at(p) is None
    }

    pub open spec fn wf(self) -> bool {
        &&& 1 <= self.width <= 0x1000
        &&& 1 <= self.height <= 0x1000
        &&& self.occupied@.len() == self.height
        &&& forall|y: int|
            0 <= y < self.height ==> (#[trigger] self.occupied@[y])@.len() == self.width
        &&& self.dropoffs@.len() == self.width * self.height
        &&& forall|k: int|
            0 <= k < self.moving@.len() ==> self.on_board((#[trigger] self.moving@[k]).pos)
        &&& forall|k: int, l: int|
            0 <= k < l < self.moving@.len() ==> (#[trigger] self.moving@[k]).ship_id != (
            #[trigger] self.moving@[l]).ship_id
        &&& forall|k: int, l: int|
            0 <= k < l < self.moving@.len() ==> (#[trigger] self.moving@[k]).pos != (
            #[trigger] self.moving@[l]).pos
    }

    /// Every pending unit is recorded on its own cell, except that during
    /// the terminal phase depot cells may have been overrun.
    pub open spec fn requests_marked(self) -> bool {
        forall|k: int|
            0 <= k < self.moving@.len() ==> (self.grid_at((#[trigger] self.moving@[k]).pos)
                == Some(self.moving@[k].ship_id) || (self.terminal && self.dropoff_at(
                self.moving@[k].pos,
            )))
    }

    pub fn new(width: usize, height: usize) -> (r: Navi)
        requires
            1 <= width <= 0x1000,
            1 <= height <= 0x1000,
        ensures
            r.wf(),
            r.width == width,
            r.height == height,
            r.moving@.len() == 0,
            !r.terminal,
            forall|p: Position| r.on_board(p) ==> #[trigger] r.grid_at(p) is None,
            forall|p: Position| r.on_board(p) ==> !(#[trigger] r.dropoff_at(p)),
    {
        proof {
            assert(width * height <= 0x1000000) by (nonlinear_arith)
                requires 1 <= width <= 0x1000, 1 <= height <= 0x1000,
            ;
        }
        let mut occupied: Vec<Vec<Option<ShipId>>> = Vec::new();
        let mut y: usize = 0;
        while y < height
            invariant
                y <= height,
                occupied@.len() == y,
                forall|j: int|
                    0 <= j < y ==> (#[trigger] occupied@[j])@.len() == width && (forall|x: int|
                        0 <= x < width ==> (#[trigger] occupied@[j]@[x]) is None),
            decreases height - y,
        {
            let mut row: Vec<Option<ShipId>> = Vec::new();
            let mut x: usize = 0;
            while x < width
                invariant
                    x <= width,
                    row@.len() == x,
                    forall|i: int| 0 <= i < x ==> (#[trigger] row@[i]) is None,
                decreases width - x,
            {
                row.push(None);
                x = x + 1;
            }
            occupied.push(row);
            y = y + 1;
        }
        let area = width * height;
        let mut dropoffs: Vec<bool> = Vec::new();
        let mut i: usize = 0;
        while i < area
            invariant
                i <= area,
                dropoffs@.len() == i,
                forall|j: int| 0 <= j < i ==> !(#[trigger] dropoffs@[j]),
            decreases area - i,
        {
            dropoffs.push(false);
            i = i + 1;
        }
        let r = Navi { width, height, moving: Vec::new(), occupied, terminal: false, dropoffs };
        proof {
            assert forall|p: Position| r.on_board(p) implies #[trigger] r.grid_at(p) is None by {}
            assert forall|p: Position| r.on_board(p) implies !(#[trigger] r.dropoff_at(p)) by {
                lemma_cell_index_in_range(p, width as int, height as int);
            }
        }
        r
    }

    /// Wrap a position onto the board.
    pub fn normalize(&self, position: &Position) -> (r: Position)
        requires
            self.wf(),
        ensures
            r == self.norm_spec(*position),
            self.on_board(r),
    {
        Position {
            x: crate::grid::norm_coord(position.x, self.width as i32),
            y: crate::grid::norm_coord(position.y, self.height as i32),
        }
    }

    /// The unit recorded on a cell; during the terminal phase depot cells
    /// report no occupant.
    pub fn get(&self, position: &Position) -> (r: Option<ShipId>)
        requires
            self.wf(),
        ensures
            r == (if self.terminal && self.dropoff_at(self.norm_spec(*position)) {
                None
            } else {
                self.grid_at(self.norm_spec(*position))
            }),
    {
        let position = self.normalize(position);
        if self.terminal && self.is_dropoff_cell(position) {
            return None;
        }
        self.occupied[position.y as usize][position.x as usize]
    }

    fn is_dropoff_cell(&self, position: Position) -> (r: bool)
        requires
            self.wf(),
            self.on_board(position),
        ensures
            r == self.dropoff_at(position),
    {
        proof {
            lemma_cell_index_in_range(position, self.width as int, self.height as int);
        }
        self.dropoffs[(position.y as usize) * self.width + (position.x as usize)]
    }

    /// Whether a cell may be entered.
    pub fn is_safe(&self, position: &Position) -> (r: bool)
        requires
            self.wf(),
        ensures
            r == self.safe_spec(self.norm_spec(*position)),
    {
        let position = self.normalize(position);
        if self.terminal && self.is_dropoff_cell(position) {
            return true;
        }
        self.occupied[position.y as usize][position.x as usize].is_none()
    }

    pub fn is_unsafe(&self, position: &Position) -> (r: bool)
        requires
            self.wf(),
        ensures
            r == !self.safe_spec(self.norm_spec(*position)),
    {
        !self.is_safe(position)
    }

    /// Record a unit on a cell.
    pub fn mark_unsafe(&mut self, position: &Position, ship_id: ShipId)
        requires
            old(self).wf(),
        ensures
            final(self).wf(),
            final(self).grid_at(old(self).norm_spec(*position)) == Some(ship_id),
            forall|q: Position|
                final(self).on_board(q) && q != old(self).norm_spec(*position)
                    ==> #[trigger] final(self).grid_at(q) == old(self).grid_at(q),
            (*final(self) == Navi { occupied: final(self).occupied, ..*old(self) }),
    {
        let position = self.normalize(position);
        let row = &mut self.occupied[position.y as usize];
        row.set(position.x as usize, Some(ship_id));
    }

    /// Release a cell.
    pub fn mark_safe(&mut self, position: &Position)
        requires
            old(self).wf(),
        ensures
            final(self).wf(),
            final(self).grid_at(old(self).norm_spec(*position)) is None,
            forall|q: Position|
                final(self).on_board(q) && q != old(self).norm_spec(*position)
                    ==> #[trigger] final(self).grid_at(q) == old(self).grid_at(q),
            (*final(self) == Navi { occupied: final(self).occupied, ..*old(self) }),
    {
        let position = self.normalize(position);
        let row = &mut self.occupied[position.y as usize];
        row.set(position.x as usize, None);
    }

    /// Record a snapshot unit on its cell.
    pub fn mark_unsafe_ship(&mut self, ship: &crate::game::Ship)
        requires
            old(self).wf(),
        ensures
            final(self).wf(),
            final(self).grid_at(old(self).norm_spec(ship.position)) == Some(ship.id),
            forall|q: Position|
                final(self).on_board(q) && q != old(self).norm_spec(ship.position)
                    ==> #[trigger] final(self).grid_at(q) == old(self).grid_at(q),
            (*final(self) == Navi { occupied: final(self).occupied, ..*old(self) }),
    {
        self.mark_unsafe(&ship.position, ship.id);
    }

    /// Move a recorded unit from one cell to another.
    pub fn move_ship(&mut self, ship_id: ShipId, old_pos: Position, new_pos: Position)
        requires
            old(self).wf(),
        ensures
            final(self).wf(),
            final(self).grid_at(old(self).norm_spec(new_pos)) == Some(ship_id),
            old(self).norm_spec(old_pos) != old(self).norm_spec(new_pos) ==> final(self).grid_at(
                old(self).norm_spec(old_pos),
            ) is None,
            forall|q: Position|
                final(self).on_board(q) && q != old(self).norm_spec(old_pos) && q != old(
                    self,
                ).norm_spec(new_pos) ==> #[trigger] final(self).grid_at(q) == old(self).grid_at(q),
            (*final(self) == Navi { occupied: final(self).occupied, ..*old(self) }),
    {
        self.mark_safe(&old_pos);
        self.mark_unsafe(&new_pos, ship_id);
    }

    /// Exchange the recorded cells of two units atomically.
    pub fn swap_ships(&mut self, a: (Position, ShipId), b: (Position, ShipId))
        requires
            old(self).wf(),
        ensures
            final(self).wf(),
            final(self).grid_at(old(self).norm_spec(a.0)) == Some(b.1),
            old(self).norm_spec(a.0) != old(self).norm_spec(b.0) ==> final(self).grid_at(
                old(self).norm_spec(b.0),
            ) == Some(a.1),
            forall|q: Position|
                final(self).on_board(q) && q != old(self).norm_spec(a.0) && q != old(
                    self,
                ).norm_spec(b.0) ==> #[trigger] final(self).grid_at(q) == old(self).grid_at(q),
            (*final(self) == Navi { occupied: final(self).occupied, ..*old(self) }),
    {
        let (pos1, ship1) = a;
        let (pos2, ship2) = b;
        self.mark_unsafe(&pos2, ship1);
        self.mark_unsafe(&pos1, ship2);
    }
}

/// The directions that shorten the toroidal route from `s` to `d`, x axis
/// first: up to one east/west choice and one north/south choice.
pub open spec fn unsafe_moves_spec(s: Position, d: Position, w: int, h: int) -> Seq<Direction> {
    let xs = if s.x != d.x {
        seq![route_dir_x(s.x as int, d.x as int, w)]
    } else {
        Seq::<Direction>::empty()
    };
    let ys = if s.y != d.y {
        seq![route_dir_y(s.y as int, d.y as int, h)]
    } else {
        Seq::<Direction>::empty()
    };
    xs + ys
}

impl Navi {
    /// The candidate directions along the shortest toroidal route, in
    /// priority order.
    pub fn get_unsafe_moves(&self, source: &Position, destination: &Position) -> (r: Vec<
        Direction,
    >)
        requires
            self.wf(),
        ensures
            r@ =~= unsafe_moves_spec(
                self.norm_spec(*source),
                self.norm_spec(*destination),
                self.width as int,
                self.height as int,
            ),
    {
        let s = self.normalize(source);
        let d = self.normalize(destination);
        let w = self.width as i32;
        let h = self.height as i32;
        let mut possible_moves: Vec<Direction> = Vec::new();
        if s.x < d.x {
            possible_moves.push(
                if (d.x - s.x) > w - (d.x - s.x) {
                    Direction::West
                } else {
                    Direction::East
                },
            );
        } else if s.x > d.x {
            possible_moves.push(
                if (s.x - d.x) < w - (s.x - d.x) {
                    Direction::West
                } else {
                    Direction::East
                },
            );
        }
        if s.y < d.y {
            possible_moves.push(
                if (d.y - s.y) > h - (d.y - s.y) {
                    Direction::North
                } else {
                    Direction::South
                },
            );
        } else if s.y > d.y {
            possible_moves.push(
                if (s.y - d.y) < h - (s.y - d.y) {
                    Direction::North
                } else {
                    Direction::South
                },
            );
        }
        possible_moves
    }

    /// Whether some pending request names this unit.
    pub fn has_request(&self, ship_id: ShipId) -> (r: bool)
        ensures
            r == exists|k: int|
                0 <= k < self.moving@.len() && (#[trigger] self.moving@[k]).ship_id == ship_id,
    {
        let mut k: usize = 0;
        while k < self.moving.len()
            invariant
                k <= self.moving@.len(),
                forall|j: int| 0 <= j < k ==> (#[trigger] self.moving@[j]).ship_id != ship_id,
            decreases self.moving@.len() - k,
        {
            if self.moving[k].ship_id.0 == ship_id.0 {
                return true;
            }
            k = k + 1;
        }
        false
    }

    /// Whether some pending request is filed from this cell.
    pub fn has_request_at(&self, pos: Position) -> (r: bool)
        ensures
            r == exists|k: int|
                0 <= k < self.moving@.len() && (#[trigger] self.moving@[k]).pos == pos,
    {
        let mut k: usize = 0;
        while k < self.moving.len()
            invariant
                k <= self.moving@.len(),
                forall|j: int| 0 <= j < k ==> (#[trigger] self.moving@[j]).pos != pos,
            decreases self.moving@.len() - k,
        {
            let p = self.moving[k].pos;
            if p.x == pos.x && p.y == pos.y {
                return true;
            }
            k = k + 1;
        }
        false
    }

    /// File a request and record the unit on its cell.
    fn insert_request(&mut self, ship_id: ShipId, ship_pos: Position, dirs: Vec<Direction>)
        requires
            old(self).wf(),
            old(self).requests_marked(),
            !(exists|k: int|
                0 <= k < old(self).moving@.len() && (#[trigger] old(self).moving@[k]).ship_id
                    == ship_id),
            !(exists|k: int|
                0 <= k < old(self).moving@.len() && (#[trigger] old(self).moving@[k]).pos == old(
                    self,
                ).norm_spec(ship_pos)),
        ensures
            final(self).wf(),
            final(self).requests_marked(),
            final(self).moving@.len() == old(self).moving@.len() + 1,
            final(self).moving@.last().ship_id == ship_id,
            final(self).moving@.last().pos == old(self).norm_spec(ship_pos),
            final(self).moving@.last().dirs == dirs,
            forall|k: int|
                0 <= k < old(self).moving@.len() ==> final(self).moving@[k] == old(
                    self,
                ).moving@[k],
            final(self).grid_at(old(self).norm_spec(ship_pos)) == Some(ship_id),
            forall|q: Position|
                final(self).on_board(q) && q != old(self).norm_spec(ship_pos)
                    ==> #[trigger] final(self).grid_at(q) == old(self).grid_at(q),
            final(self).width == old(self).width,
            final(self).height == old(self).height,
            final(self).terminal == old(self).terminal,
            final(self).dropoffs == old(self).dropoffs,
    {
        let pos = self.normalize(&ship_pos);
        proof {
            crate::grid::lemma_norm_identity(pos.x as int, self.width as int);
            crate::grid::lemma_norm_identity(pos.y as int, self.height as int);
            assert(old(self).norm_spec(pos) == pos);
        }
        self.mark_unsafe(&pos, ship_id);
        let ghost g1 = *self;
        self.moving.push(MoveRequest { ship_id, pos, dirs });
        proof {
            assert(self.occupied == g1.occupied);
            assert(self.grid_at(pos) == g1.grid_at(pos));
            assert(self.grid_at(pos) == Some(ship_id));
            assert forall|q: Position|
                self.on_board(q) && q != pos implies #[trigger] self.grid_at(q) == old(
                self,
            ).grid_at(q) by {
                assert(self.grid_at(q) == g1.grid_at(q));
                assert(g1.grid_at(q) == old(self).grid_at(q));
            }
            assert forall|k: int|
                0 <= k < self.moving@.len() implies (self.grid_at(
                (#[trigger] self.moving@[k]).pos,
            ) == Some(self.moving@[k].ship_id) || (self.terminal && self.dropoff_at(
                self.moving@[k].pos,
            ))) by {
                if k < self.moving@.len() - 1 {
                    assert(self.moving@[k] == old(self).moving@[k]);
                    let p = self.moving@[k].pos;
                    assert(p != pos);
                    assert(g1.on_board(p));
                    assert(g1.grid_at(p) == old(self).grid_at(p));
                    assert(self.grid_at(p) == g1.grid_at(p));
                } else {
                    assert(g1.grid_at(pos) == Some(ship_id));
                    assert(self.grid_at(pos) == g1.grid_at(pos));
                }
            }
        }
    }

    /// File a request along the shortest route to a destination.
    pub fn naive_navigate(&mut self, ship_id: ShipId, ship_pos: Position, dest: Position)
        requires
            old(self).wf(),
            old(self).requests_marked(),
            !(exists|k: int|
                0 <= k < old(self).moving@.len() && (#[trigger] old(self).moving@[k]).ship_id
                    == ship_id),
            !(exists|k: int|
                0 <= k < old(self).moving@.len() && (#[trigger] old(self).moving@[k]).pos == old(
                    self,
                ).norm_spec(ship_pos)),
        ensures
            final(self).wf(),
            final(self).requests_marked(),
            final(self).moving@.len() == old(self).moving@.len() + 1,
            final(self).moving@.last().ship_id == ship_id,
            final(self).moving@.last().pos == old(self).norm_spec(ship_pos),
            final(self).moving@.last().dirs@ =~= unsafe_moves_spec(
                old(self).norm_spec(ship_pos),
                old(self).norm_spec(dest),
                old(self).width as int,
                old(self).height as int,
            ),
            forall|k: int|
                0 <= k < old(self).moving@.len() ==> final(self).moving@[k] == old(
                    self,
                ).moving@[k],
            final(self).grid_at(old(self).norm_spec(ship_pos)) == Some(ship_id),
            forall|q: Position|
                final(self).on_board(q) && q != old(self).norm_spec(ship_pos)
                    ==> #[trigger] final(self).grid_at(q) == old(self).grid_at(q),
            final(self).width == old(self).width,
            final(self).height == old(self).height,
            final(self).terminal == old(self).terminal,
            final(self).dropoffs == old(self).dropoffs,
    {
        let directions = self.get_unsafe_moves(&ship_pos, &dest);
        self.insert_request(ship_id, ship_pos, directions);
    }

    /// File a request for one specific step.
    pub fn nav(&mut self, ship_id: ShipId, ship_pos: Position, dir: Direction)
        requires
            old(self).wf(),
            old(self).requests_marked(),
            !(exists|k: int|
                0 <= k < old(self).moving@.len() && (#[trigger] old(self).moving@[k]).ship_id
                    == ship_id),
            !(exists|k: int|
                0 <= k < old(self).moving@.len() && (#[trigger] old(self).moving@[k]).pos == old(
                    self,
                ).norm_spec(ship_pos)),
        ensures
            final(self).wf(),
            final(self).requests_marked(),
            final(self).moving@.len() == old(self).moving@.len() + 1,
            final(self).moving@.last().ship_id == ship_id,
            final(self).moving@.last().pos == old(self).norm_spec(ship_pos),
            final(self).moving@.last().dirs@ =~= seq![dir],
            forall|k: int|
                0 <= k < old(self).moving@.len() ==> final(self).moving@[k] == old(
                    self,
                ).moving@[k],
            final(self).grid_at(old(self).norm_spec(ship_pos)) == Some(ship_id),
            forall|q: Position|
                final(self).on_board(q) && q != old(self).norm_spec(ship_pos)
                    ==> #[trigger] final(self).grid_at(q) == old(self).grid_at(q),
            final(self).width == old(self).width,
            final(self).height == old(self).height,
            final(self).terminal == old(self).terminal,
            final(self).dropoffs == old(self).dropoffs,
    {
        let mut dirs: Vec<Direction> = Vec::new();
        dirs.push(dir);
        self.insert_request(ship_id, ship_pos, dirs);
    }

    /// File a request to leave the current cell in any direction.
    pub fn move_away(&mut self, ship_id: ShipId, ship_pos: Position)
        requires
            old(self).wf(),
            old(self).requests_marked(),
            !(exists|k: int|
                0 <= k < old(self).moving@.len() && (#[trigger] old(self).moving@[k]).ship_id
                    == ship_id),
            !(exists|k: int|
                0 <= k < old(self).moving@.len() && (#[trigger] old(self).moving@[k]).pos == old(
                    self,
                ).norm_spec(ship_pos)),
        ensures
            final(self).wf(),
            final(self).requests_marked(),
            final(self).moving@.len() == old(self).moving@.len() + 1,
            final(self).moving@.last().ship_id == ship_id,
            final(self).moving@.last().pos == old(self).norm_spec(ship_pos),
            final(self).moving@.last().dirs@ =~= seq![
                Direction::North,
                Direction::South,
                Direction::East,
                Direction::West,
            ],
            forall|k: int|
                0 <= k < old(self).moving@.len() ==> final(self).moving@[k] == old(
                    self,
                ).moving@[k],
            final(self).grid_at(old(self).norm_spec(ship_pos)) == Some(ship_id),
            forall|q: Position|
                final(self).on_board(q) && q != old(self).norm_spec(ship_pos)
                    ==> #[trigger] final(self).grid_at(q) == old(self).grid_at(q),
            final(self).width == old(self).width,
            final(self).height == old(self).height,
            final(self).terminal == old(self).terminal,
            final(self).dropoffs == old(self).dropoffs,
    {
        let dirs = Direction::get_all_cardinals();
        self.insert_request(ship_id, ship_pos, dirs);
    }

    /// Whether `reqs` lists each unit once, each on its own distinct board
    /// cell.
    pub open spec fn reqs_wf(self, reqs: Seq<MoveRequest>) -> bool {
        &&& forall|k: int| 0 <= k < reqs.len() ==> self.on_board((#[trigger] reqs[k]).pos)
        &&& forall|k: int, l: int|
            0 <= k < l < reqs.len() ==> (#[trigger] reqs[k]).ship_id != (
            #[trigger] reqs[l]).ship_id
        &&& forall|k: int, l: int|
            0 <= k < l < reqs.len() ==> (#[trigger] reqs[k]).pos != (#[trigger] reqs[l]).pos
    }

    /// The cell a unit's request was filed from.
    pub open spec fn req_pos(reqs: Seq<MoveRequest>, id: ShipId) -> Position {
        reqs[choose|k: int| 0 <= k < reqs.len() && reqs[k].ship_id == id].pos
    }

    pub open spec fn req_has(reqs: Seq<MoveRequest>, id: ShipId) -> bool {
        exists|k: int| 0 <= k < reqs.len() && (#[trigger] reqs[k]).ship_id == id
    }

    pub open spec fn moves_has(moves: Seq<(ShipId, Direction)>, id: ShipId) -> bool {
        exists|i: int| 0 <= i < moves.len() && (#[trigger] moves[i]).0 == id
    }

    /// The destination cell of an arbitration move: one normalized step from
    /// the cell the unit's request was filed from.
    pub open spec fn dest_spec(self, reqs0: Seq<MoveRequest>, id: ShipId, d: Direction) -> Position {
        self.norm_spec(offset_spec(Self::req_pos(reqs0, id), d))
    }

    /// The arbitration invariant, against the request list `reqs0` the
    /// round started from: pending requests come from that list; recorded
    /// moves name listed, no-longer-pending, pairwise-distinct units; every
    /// listed unit is pending or recorded; and each recorded step's
    /// destination cell is held by its unit on the grid, unless it is a
    /// depot in the terminal phase.
    pub open spec fn arbiter_inv(self, reqs0: Seq<MoveRequest>, moves: Seq<(ShipId, Direction)>) -> bool {
        &&& self.wf()
        &&& self.requests_marked()
        &&& self.reqs_wf(reqs0)
        &&& forall|k: int|
            0 <= k < self.moving@.len() ==> Self::req_has(
                reqs0,
                (#[trigger] self.moving@[k]).ship_id,
            ) && Self::req_pos(reqs0, self.moving@[k].ship_id) == self.moving@[k].pos
        &&& forall|i: int| 0 <= i < moves.len() ==> Self::req_has(reqs0, (#[trigger] moves[i]).0)
        &&& forall|i: int|
            0 <= i < moves.len() ==> !Self::req_has(self.moving@, (#[trigger] moves[i]).0)
        &&& forall|i: int, j: int|
            0 <= i < j < moves.len() ==> (#[trigger] moves[i]).0 != (#[trigger] moves[j]).0
        &&& forall|i: int|
            0 <= i < moves.len() && (#[trigger] moves[i]).1 != Direction::Still ==> (
            self.grid_at(self.dest_spec(reqs0, moves[i].0, moves[i].1)) == Some(moves[i].0) || (
            self.terminal && self.dropoff_at(self.dest_spec(reqs0, moves[i].0, moves[i].1))))
        &&& forall|k0: int|
            0 <= k0 < reqs0.len() ==> (Self::req_has(self.moving@, (#[trigger] reqs0[k0]).ship_id)
                || Self::moves_has(moves, reqs0[k0].ship_id))
    }

    /// Find the pending request of a unit.
    fn find_request(&self, id: ShipId) -> (r: Option<usize>)
        ensures
            match r {
                Some(k) => k < self.moving@.len() && self.moving@[k as int].ship_id == id,
                None => !Self::req_has(self.moving@, id),
            },
    {
        let mut k: usize = 0;
        while k < self.moving.len()
            invariant
                k <= self.moving@.len(),
                forall|j: int| 0 <= j < k ==> (#[trigger] self.moving@[j]).ship_id != id,
            decreases self.moving@.len() - k,
        {
            if self.moving[k].ship_id.0 == id.0 {
                return Some(k);
            }
            k = k + 1;
        }
        None
    }

    /// A pending request filed under an id found in `reqs0` was filed from
    /// the cell `reqs0` records for that id.
    proof fn lemma_pending_pos(self, reqs0: Seq<MoveRequest>, k: int)
        requires
            self.reqs_wf(reqs0),
            0 <= k < self.moving@.len(),
            exists|k0: int|
                0 <= k0 < reqs0.len() && (#[trigger] self.moving@[k]).ship_id == reqs0[k0].ship_id
                    && self.moving@[k].pos == reqs0[k0].pos,
        ensures
            Self::req_has(reqs0, self.moving@[k].ship_id),
            Self::req_pos(reqs0, self.moving@[k].ship_id) == self.moving@[k].pos,
    {
        let id = self.moving@[k].ship_id;
        let k0 = choose|k0: int|
            0 <= k0 < reqs0.len() && self.moving@[k].ship_id == reqs0[k0].ship_id
                && self.moving@[k].pos == reqs0[k0].pos;
        assert(reqs0[k0].ship_id == id);
        let kc = choose|kk: int| 0 <= kk < reqs0.len() && reqs0[kk].ship_id == id;
        if kc < k0 {
            assert(reqs0[kc].ship_id != reqs0[k0].ship_id);
        } else if k0 < kc {
            assert(reqs0[k0].ship_id != reqs0[kc].ship_id);
        }
    }

    /// Record the pending request at `i` as a move to the free cell `t`.
    fn resolve_move(
        &mut self,
        i: usize,
        dir: Direction,
        t: Position,
        moves: &mut Vec<(ShipId, Direction)>,
        Ghost(reqs0): Ghost<Seq<MoveRequest>>,
    )
        requires
            old(self).arbiter_inv(reqs0, old(moves)@),
            i < old(self).moving@.len(),
            t == old(self).dest_spec(reqs0, old(self).moving@[i as int].ship_id, dir),
            old(self).on_board(t),
            old(self).safe_spec(t),
            Self::req_has(reqs0, old(self).moving@[i as int].ship_id),
            Self::req_pos(reqs0, old(self).moving@[i as int].ship_id) == old(self).moving@[
                i as int
            ].pos,
        ensures
            final(self).arbiter_inv(reqs0, final(moves)@),
            final(self).width == old(self).width,
            final(self).height == old(self).height,
            final(self).terminal == old(self).terminal,
            final(self).dropoffs == old(self).dropoffs,
            final(self).moving@.len() == old(self).moving@.len() - 1,
            final(moves)@ == old(moves)@.push(
                (old(self).moving@[i as int].ship_id, dir),
            ),
    {
        let ghost m0 = *old(self);
        let req_id = self.moving[i].ship_id;
        let req_pos_v = self.moving[i].pos;
        proof {
            crate::grid::lemma_norm_identity(req_pos_v.x as int, self.width as int);
            crate::grid::lemma_norm_identity(req_pos_v.y as int, self.height as int);
            crate::grid::lemma_norm_identity(t.x as int, self.width as int);
            crate::grid::lemma_norm_identity(t.y as int, self.height as int);
        }
        moves.push((req_id, dir));
        self.mark_safe(&req_pos_v);
        let ghost g1 = *self;
        self.mark_unsafe(&t, req_id);
        let ghost g2 = *self;
        self.moving.remove(i);
        proof {
            assert(self.occupied == g2.occupied);
            assert forall|q: Position|
                self.on_board(q) implies #[trigger] self.grid_at(q) == (if q == t {
                Some(req_id)
            } else if q == req_pos_v {
                None::<ShipId>
            } else {
                m0.grid_at(q)
            }) by {
                assert(self.grid_at(q) == g2.grid_at(q));
                if q != t {
                    assert(g2.grid_at(q) == g1.grid_at(q));
                    if q != req_pos_v {
                        assert(g1.grid_at(q) == m0.grid_at(q));
                    } else {
                        assert(g1.grid_at(q) is None);
                    }
                } else {
                    assert(g2.grid_at(t) == Some(req_id));
                }
            }
            let mv = moves@;
            let pend = self.moving@;
            assert forall|k: int, l: int|
                0 <= k < l < pend.len() implies (#[trigger] pend[k]).ship_id != (
            #[trigger] pend[l]).ship_id by {
                let k0 = if k < i as int { k } else { k + 1 };
                let l0 = if l < i as int { l } else { l + 1 };
                assert(pend[k] == m0.moving@[k0] && pend[l] == m0.moving@[l0]);
                assert(m0.moving@[k0].ship_id != m0.moving@[l0].ship_id);
            }
            assert forall|k: int, l: int|
                0 <= k < l < pend.len() implies (#[trigger] pend[k]).pos != (
            #[trigger] pend[l]).pos by {
                let k0 = if k < i as int { k } else { k + 1 };
                let l0 = if l < i as int { l } else { l + 1 };
                assert(pend[k] == m0.moving@[k0] && pend[l] == m0.moving@[l0]);
                assert(m0.moving@[k0].pos != m0.moving@[l0].pos);
            }
            assert forall|k: int|
                0 <= k < pend.len() implies self.on_board((#[trigger] pend[k]).pos)
                && Self::req_has(reqs0, pend[k].ship_id) && Self::req_pos(reqs0, pend[k].ship_id)
                    == pend[k].pos by {
                let ko = if k < i as int { k } else { k + 1 };
                assert(pend[k] == m0.moving@[ko]);
                assert(m0.on_board(m0.moving@[ko].pos));
                assert(Self::req_has(reqs0, (m0.moving@[ko]).ship_id));
            }
            assert(self.wf());
            assert forall|k: int|
                0 <= k < pend.len() implies (self.grid_at((#[trigger] pend[k]).pos) == Some(
                pend[k].ship_id,
            ) || (self.terminal && self.dropoff_at(pend[k].pos))) by {
                let ko = if k < i as int { k } else { k + 1 };
                assert(pend[k] == m0.moving@[ko]);
                let p = pend[k].pos;
                if ko < i as int {
                    assert(m0.moving@[ko].pos != m0.moving@[i as int].pos);
                } else {
                    assert(m0.moving@[i as int].pos != m0.moving@[ko].pos);
                }
                assert(p != req_pos_v);
                if p == t {
                    if m0.grid_at(t) is None {
                        assert(m0.grid_at(p) != Some(pend[k].ship_id));
                        assert(m0.terminal && m0.dropoff_at(p));
                    } else {
                        assert(m0.terminal && m0.dropoff_at(t));
                    }
                } else {
                    assert(self.grid_at(p) == m0.grid_at(p));
                }
            }
            assert forall|ii: int|
                0 <= ii < mv.len() implies Self::req_has(reqs0, (#[trigger] mv[ii]).0) && !Self::req_has(
                pend,
                mv[ii].0,
            ) by {
                if ii < mv.len() - 1 {
                    assert(mv[ii] == old(moves)@[ii]);
                    if Self::req_has(pend, mv[ii].0) {
                        let k = choose|k: int|
                            0 <= k < pend.len() && (#[trigger] pend[k]).ship_id == mv[ii].0;
                        let ko = if k < i as int { k } else { k + 1 };
                        assert(m0.moving@[ko].ship_id == mv[ii].0);
                        assert(!Self::req_has(m0.moving@, mv[ii].0));
                        assert(false);
                    }
                } else {
                    assert(mv[ii].0 == req_id);
                    if Self::req_has(pend, req_id) {
                        let k = choose|k: int|
                            0 <= k < pend.len() && (#[trigger] pend[k]).ship_id == req_id;
                        let ko = if k < i as int { k } else { k + 1 };
                        assert(m0.moving@[ko].ship_id == req_id);
                        assert(m0.moving@[i as int].ship_id == req_id);
                        if ko < i as int {
                            assert(m0.moving@[ko].ship_id != m0.moving@[i as int].ship_id);
                        } else {
                            assert(m0.moving@[i as int].ship_id != m0.moving@[ko].ship_id);
                        }
                        assert(false);
                    }
                }
            }
            assert forall|ii: int, jj: int|
                0 <= ii < jj < mv.len() implies (#[trigger] mv[ii]).0 != (
            #[trigger] mv[jj]).0 by {
                if jj < mv.len() - 1 {
                    assert(old(moves)@[ii].0 != old(moves)@[jj].0);
                } else {
                    assert(mv[jj].0 == req_id);
                    assert(Self::req_has(m0.moving@, req_id));
                    assert(!Self::req_has(m0.moving@, mv[ii].0));
                }
            }
            assert forall|ii: int|
                0 <= ii < mv.len() && (#[trigger] mv[ii]).1 != Direction::Still implies (
            self.grid_at(self.dest_spec(reqs0, mv[ii].0, mv[ii].1)) == Some(mv[ii].0) || (
            self.terminal && self.dropoff_at(self.dest_spec(reqs0, mv[ii].0, mv[ii].1)))) by {
                let dst = self.dest_spec(reqs0, mv[ii].0, mv[ii].1);
                assert(dst == m0.dest_spec(reqs0, mv[ii].0, mv[ii].1));
                assert(self.on_board(dst));
                if ii == mv.len() - 1 {
                    assert(dst == t);
                    assert(self.grid_at(t) == Some(req_id));
                } else {
                    assert(mv[ii] == old(moves)@[ii]);
                    if dst == t {
                        if m0.grid_at(t) is None {
                            assert(!(m0.grid_at(dst) == Some(mv[ii].0)));
                            assert(m0.terminal && m0.dropoff_at(dst));
                        }
                    } else if dst == req_pos_v {
                        if m0.grid_at(dst) == Some(mv[ii].0) {
                            if m0.grid_at(req_pos_v) == Some(req_id) {
                                assert(mv[ii].0 == req_id);
                                assert(!Self::req_has(m0.moving@, req_id));
                                assert(false);
                            } else {
                                assert(m0.terminal && m0.dropoff_at(req_pos_v));
                            }
                        }
                    } else {
                        assert(self.grid_at(dst) == m0.grid_at(dst));
                    }
                }
            }
            assert forall|k0: int|
                0 <= k0 < reqs0.len() implies (Self::req_has(
                pend,
                (#[trigger] reqs0[k0]).ship_id,
            ) || Self::moves_has(mv, reqs0[k0].ship_id)) by {
                let id0 = reqs0[k0].ship_id;
                if Self::req_has(m0.moving@, id0) {
                    let k = choose|k: int|
                        0 <= k < m0.moving@.len() && (#[trigger] m0.moving@[k]).ship_id == id0;
                    if k == i as int {
                        assert(mv[mv.len() - 1].0 == req_id);
                        assert(id0 == req_id);
                        assert(Self::moves_has(mv, id0));
                    } else {
                        let kn = if k < i as int { k } else { k - 1 };
                        assert(pend[kn] == m0.moving@[k]);
                        assert(Self::req_has(pend, id0));
                    }
                } else {
                    assert(Self::moves_has(old(moves)@, id0));
                    let ii = choose|ii: int|
                        0 <= ii < old(moves)@.len() && (#[trigger] old(moves)@[ii]).0 == id0;
                    assert(mv[ii].0 == id0);
                    assert(Self::moves_has(mv, id0));
                }
            }
        }
    }

    /// Record the pending requests at `i` and `ju` as an atomic cell
    /// exchange: the first moves to `t`, the partner to the first's cell.
    fn resolve_swap(
        &mut self,
        i: usize,
        ju: usize,
        dir: Direction,
        dd: Direction,
        t: Position,
        moves: &mut Vec<(ShipId, Direction)>,
        Ghost(reqs0): Ghost<Seq<MoveRequest>>,
    )
        requires
            old(self).arbiter_inv(reqs0, old(moves)@),
            i < old(self).moving@.len(),
            ju < old(self).moving@.len(),
            i != ju,
            t == old(self).dest_spec(reqs0, old(self).moving@[i as int].ship_id, dir),
            old(self).on_board(t),
            old(self).grid_at(t) == Some(old(self).moving@[ju as int].ship_id),
            old(self).norm_spec(
                offset_spec(old(self).moving@[ju as int].pos, dd),
            ) == old(self).moving@[i as int].pos,
            Self::req_has(reqs0, old(self).moving@[i as int].ship_id),
            Self::req_pos(reqs0, old(self).moving@[i as int].ship_id) == old(self).moving@[
                i as int
            ].pos,
        ensures
            final(self).arbiter_inv(reqs0, final(moves)@),
            final(self).width == old(self).width,
            final(self).height == old(self).height,
            final(self).terminal == old(self).terminal,
            final(self).dropoffs == old(self).dropoffs,
            final(self).moving@.len() == old(self).moving@.len() - 2,
            final(moves)@ == old(moves)@.push(
                (old(self).moving@[i as int].ship_id, dir),
            ).push((old(self).moving@[ju as int].ship_id, dd)),
    {
        let ghost m0 = *old(self);
        let req_id = self.moving[i].ship_id;
        let req_pos_v = self.moving[i].pos;
        let u_id = self.moving[ju].ship_id;
        let u_pos = self.moving[ju].pos;
        proof {
            self.lemma_pending_pos(reqs0, ju as int);
            crate::grid::lemma_norm_identity(req_pos_v.x as int, self.width as int);
            crate::grid::lemma_norm_identity(req_pos_v.y as int, self.height as int);
            crate::grid::lemma_norm_identity(t.x as int, self.width as int);
            crate::grid::lemma_norm_identity(t.y as int, self.height as int);
            if i < ju {
                assert(m0.moving@[i as int].ship_id != m0.moving@[ju as int].ship_id);
            } else {
                assert(m0.moving@[ju as int].ship_id != m0.moving@[i as int].ship_id);
            }
        }
        moves.push((req_id, dir));
        moves.push((u_id, dd));
        self.mark_unsafe(&req_pos_v, u_id);
        let ghost g1 = *self;
        self.mark_unsafe(&t, req_id);
        let ghost g2 = *self;
        let a = if i < ju {
            i
        } else {
            ju
        };
        let b = if i < ju {
            ju
        } else {
            i
        };
        self.moving.remove(b);
        self.moving.remove(a);
        proof {
            assert(self.occupied == g2.occupied);
            assert forall|q: Position|
                self.on_board(q) implies #[trigger] self.grid_at(q) == (if q == t {
                Some(req_id)
            } else if q == req_pos_v {
                Some(u_id)
            } else {
                m0.grid_at(q)
            }) by {
                assert(self.grid_at(q) == g2.grid_at(q));
                if q != t {
                    assert(g2.grid_at(q) == g1.grid_at(q));
                    if q != req_pos_v {
                        assert(g1.grid_at(q) == m0.grid_at(q));
                    } else {
                        assert(g1.grid_at(q) == Some(u_id));
                    }
                } else {
                    assert(g2.grid_at(t) == Some(req_id));
                }
            }
            let mv = moves@;
            let pend = self.moving@;
            let ghost shift = |k: int|
                if k < a as int {
                    k
                } else if k < b as int - 1 {
                    k + 1
                } else {
                    k + 2
                };
            assert forall|k: int|
                0 <= k < pend.len() implies pend[k] == m0.moving@[shift(k)] && 0 <= shift(k)
                    < m0.moving@.len() && shift(k) != i as int && shift(k) != ju as int by {}
            assert forall|k: int, l: int|
                0 <= k < l < pend.len() implies (#[trigger] pend[k]).ship_id != (
            #[trigger] pend[l]).ship_id && pend[k].pos != pend[l].pos by {
                assert(pend[k] == m0.moving@[shift(k)] && pend[l] == m0.moving@[shift(l)]);
                assert(m0.moving@[shift(k)].ship_id != m0.moving@[shift(l)].ship_id);
                assert(m0.moving@[shift(k)].pos != m0.moving@[shift(l)].pos);
            }
            assert forall|k: int|
                0 <= k < pend.len() implies self.on_board((#[trigger] pend[k]).pos)
                && Self::req_has(reqs0, pend[k].ship_id) && Self::req_pos(reqs0, pend[k].ship_id)
                    == pend[k].pos by {
                assert(pend[k] == m0.moving@[shift(k)]);
                assert(m0.on_board(m0.moving@[shift(k)].pos));
                assert(Self::req_has(reqs0, (m0.moving@[shift(k)]).ship_id));
            }
            assert(self.wf());
            assert forall|k: int|
                0 <= k < pend.len() implies (self.grid_at((#[trigger] pend[k]).pos) == Some(
                pend[k].ship_id,
            ) || (self.terminal && self.dropoff_at(pend[k].pos))) by {
                let ko = shift(k);
                assert(pend[k] == m0.moving@[ko]);
                let p = pend[k].pos;
                if ko < i as int {
                    assert(m0.moving@[ko].pos != m0.moving@[i as int].pos);
                } else {
                    assert(m0.moving@[i as int].pos != m0.moving@[ko].pos);
                }
                assert(p != req_pos_v);
                if p == t {
                    if m0.grid_at(p) == Some(pend[k].ship_id) {
                        assert(pend[k].ship_id == u_id);
                        if ko < ju as int {
                            assert(m0.moving@[ko].ship_id != m0.moving@[ju as int].ship_id);
                        } else {
                            assert(m0.moving@[ju as int].ship_id != m0.moving@[ko].ship_id);
                        }
                        assert(false);
                    }
                    assert(m0.terminal && m0.dropoff_at(p));
                } else {
                    assert(self.grid_at(p) == m0.grid_at(p));
                }
            }
            assert forall|ii: int|
                0 <= ii < mv.len() implies Self::req_has(reqs0, (#[trigger] mv[ii]).0) && !Self::req_has(
                pend,
                mv[ii].0,
            ) by {
                let the_id = mv[ii].0;
                if ii < mv.len() - 2 {
                    assert(mv[ii] == old(moves)@[ii]);
                }
                if Self::req_has(pend, the_id) {
                    let k = choose|k: int|
                        0 <= k < pend.len() && (#[trigger] pend[k]).ship_id == the_id;
                    let ko = shift(k);
                    assert(m0.moving@[ko].ship_id == the_id);
                    if ii < mv.len() - 2 {
                        assert(!Self::req_has(m0.moving@, the_id));
                        assert(false);
                    } else if ii == mv.len() - 2 {
                        assert(the_id == req_id);
                        if ko < i as int {
                            assert(m0.moving@[ko].ship_id != m0.moving@[i as int].ship_id);
                        } else {
                            assert(m0.moving@[i as int].ship_id != m0.moving@[ko].ship_id);
                        }
                        assert(false);
                    } else {
                        assert(the_id == u_id);
                        if ko < ju as int {
                            assert(m0.moving@[ko].ship_id != m0.moving@[ju as int].ship_id);
                        } else {
                            assert(m0.moving@[ju as int].ship_id != m0.moving@[ko].ship_id);
                        }
                        assert(false);
                    }
                }
            }
            assert forall|ii: int, jj: int|
                0 <= ii < jj < mv.len() implies (#[trigger] mv[ii]).0 != (
            #[trigger] mv[jj]).0 by {
                if jj < mv.len() - 2 {
                    assert(old(moves)@[ii].0 != old(moves)@[jj].0);
                } else if jj == mv.len() - 2 {
                    assert(mv[jj].0 == req_id);
                    assert(Self::req_has(m0.moving@, req_id));
                    assert(!Self::req_has(m0.moving@, mv[ii].0));
                } else {
                    assert(mv[jj].0 == u_id);
                    if ii < mv.len() - 2 {
                        assert(Self::req_has(m0.moving@, u_id));
                        assert(!Self::req_has(m0.moving@, mv[ii].0));
                    } else {
                        assert(mv[ii].0 == req_id);
                    }
                }
            }
            assert forall|ii: int|
                0 <= ii < mv.len() && (#[trigger] mv[ii]).1 != Direction::Still implies (
            self.grid_at(self.dest_spec(reqs0, mv[ii].0, mv[ii].1)) == Some(mv[ii].0) || (
            self.terminal && self.dropoff_at(self.dest_spec(reqs0, mv[ii].0, mv[ii].1)))) by {
                let dst = self.dest_spec(reqs0, mv[ii].0, mv[ii].1);
                assert(dst == m0.dest_spec(reqs0, mv[ii].0, mv[ii].1));
                if ii == mv.len() - 2 {
                    assert(dst == t);
                    if t == req_pos_v {
                        assert(m0.grid_at(req_pos_v) == Some(u_id));
                        assert(m0.terminal && m0.dropoff_at(req_pos_v));
                    } else {
                        assert(self.grid_at(t) == Some(req_id));
                    }
                } else if ii == mv.len() - 1 {
                    assert(Self::req_pos(reqs0, u_id) == u_pos);
                    assert(dst == req_pos_v);
                    if t == req_pos_v {
                        assert(m0.grid_at(req_pos_v) == Some(u_id));
                        assert(m0.terminal && m0.dropoff_at(req_pos_v));
                    } else {
                        assert(self.grid_at(req_pos_v) == Some(u_id));
                    }
                } else {
                    assert(mv[ii] == old(moves)@[ii]);
                    assert(self.on_board(dst));
                    if dst == t {
                        if m0.grid_at(dst) == Some(mv[ii].0) {
                            assert(mv[ii].0 == u_id);
                            assert(!Self::req_has(m0.moving@, u_id));
                            assert(false);
                        }
                    } else if dst == req_pos_v {
                        if m0.grid_at(dst) == Some(mv[ii].0) {
                            if m0.grid_at(req_pos_v) == Some(req_id) {
                                assert(mv[ii].0 == req_id);
                                assert(!Self::req_has(m0.moving@, req_id));
                                assert(false);
                            } else {
                                assert(m0.terminal && m0.dropoff_at(req_pos_v));
                            }
                        }
                    } else {
                        assert(self.grid_at(dst) == m0.grid_at(dst));
                    }
                }
            }
            assert forall|k0: int|
                0 <= k0 < reqs0.len() implies (Self::req_has(
                pend,
                (#[trigger] reqs0[k0]).ship_id,
            ) || Self::moves_has(mv, reqs0[k0].ship_id)) by {
                let id0 = reqs0[k0].ship_id;
                if Self::req_has(m0.moving@, id0) {
                    let k = choose|k: int|
                        0 <= k < m0.moving@.len() && (#[trigger] m0.moving@[k]).ship_id == id0;
                    if k == i as int {
                        assert(mv[mv.len() - 2].0 == req_id);
                        assert(id0 == req_id);
                        assert(Self::moves_has(mv, id0));
                    } else if k == ju as int {
                        assert(mv[mv.len() - 1].0 == u_id);
                        assert(id0 == u_id);
                        assert(Self::moves_has(mv, id0));
                    } else {
                        let kn = if k < a as int {
                            k
                        } else if k < b as int {
                            k - 1
                        } else {
                            k - 2
                        };
                        assert(shift(kn) == k);
                        assert(pend[kn] == m0.moving@[k]);
                        assert(Self::req_has(pend, id0));
                    }
                } else {
                    assert(Self::moves_has(old(moves)@, id0));
                    let ii = choose|ii: int|
                        0 <= ii < old(moves)@.len() && (#[trigger] old(moves)@[ii]).0 == id0;
                    assert(mv[ii].0 == id0);
                    assert(Self::moves_has(mv, id0));
                }
            }
        }
    }

    /// Try to resolve the pending request at index `i`: move if some
    /// candidate cell is free, or exchange cells with a unit that wants this
    /// one's cell (discovered by inspecting that unit's own pending
    /// request). Returns whether the request (and, on an exchange, the
    /// partner's) was resolved and recorded.
    pub fn signal_move(
        &mut self,
        i: usize,
        moves: &mut Vec<(ShipId, Direction)>,
        Ghost(reqs0): Ghost<Seq<MoveRequest>>,
    ) -> (resolved: bool)
        requires
            old(self).arbiter_inv(reqs0, old(moves)@),
            i < old(self).moving@.len(),
        ensures
            final(self).arbiter_inv(reqs0, final(moves)@),
            final(self).width == old(self).width,
            final(self).height == old(self).height,
            final(self).terminal == old(self).terminal,
            final(self).dropoffs == old(self).dropoffs,
            resolved ==> final(self).moving@.len() < old(self).moving@.len(),
            !resolved ==> final(self).moving@ == old(self).moving@ && final(moves)@ == old(
                moves,
            )@,
            final(self).moving@.len() <= old(self).moving@.len(),
            final(self).moving@.len() + 2 >= old(self).moving@.len(),
            // A resolution appends the recorded steps (one for a move, two
            // for an exchange) for units that were pending; earlier records
            // are untouched. Where the recorded steps may land is carried by
            // the arbitration invariant: each one's destination cell is held
            // by its unit on the grid unless it is a terminal-phase depot.
            old(moves)@.len() <= final(moves)@.len() <= old(moves)@.len() + 2,
            forall|j: int| 0 <= j < old(moves)@.len() ==> #[trigger] final(moves)@[j] == old(
                moves,
            )@[j],
            resolved ==> final(moves)@.len() > old(moves)@.len(),
            forall|j: int|
                old(moves)@.len() <= j < final(moves)@.len() ==> Self::req_has(
                    old(self).moving@,
                    (#[trigger] final(moves)@[j]).0,
                ),
    {
        let req_id = self.moving[i].ship_id;
        let req_pos_v = self.moving[i].pos;
        proof {
            self.lemma_pending_pos(reqs0, i as int);
        }
        let ndirs = self.moving[i].dirs.len();
        let mut d: usize = 0;
        while d < ndirs
            invariant
                self.arbiter_inv(reqs0, moves@),
                *self == *old(self),
                moves@ == old(moves)@,
                i < self.moving@.len(),
                req_id == self.moving@[i as int].ship_id,
                req_pos_v == self.moving@[i as int].pos,
                ndirs == self.moving@[i as int].dirs@.len(),
                d <= ndirs,
                Self::req_has(reqs0, req_id),
                Self::req_pos(reqs0, req_id) == req_pos_v,
            decreases ndirs - d,
        {
            let dir = {
                let r = &self.moving[i];
                r.dirs[d]
            };
            let t = self.normalize(&req_pos_v.directional_offset(dir));
            proof {
                crate::grid::lemma_norm_identity(t.x as int, self.width as int);
                crate::grid::lemma_norm_identity(t.y as int, self.height as int);
                assert(self.norm_spec(t) == t);
                assert(t == self.dest_spec(reqs0, req_id, dir));
            }
            if self.is_safe(&t) {
                self.resolve_move(i, dir, t, moves, Ghost(reqs0));
                return true;
            }
            let occ = {
                proof {
                    lemma_cell_index_in_range(t, self.width as int, self.height as int);
                }
                self.occupied[t.y as usize][t.x as usize]
            };
            match occ {
                Some(u) => {
                    if u.0 != req_id.0 {
                        match self.find_request(u) {
                            Some(ju) => {
                                if ju != i {
                                    let nd2 = {
                                        let r = &self.moving[ju];
                                        r.dirs.len()
                                    };
                                    let mut e: usize = 0;
                                    let mut partner_dir: Option<Direction> = None;
                                    while e < nd2
                                        invariant
                                            self.arbiter_inv(reqs0, moves@),
                                            *self == *old(self),
                                            ju < self.moving@.len(),
                                            nd2 == self.moving@[ju as int].dirs@.len(),
                                            e <= nd2,
                                            match partner_dir {
                                                Some(dd) => self.norm_spec(
                                                    offset_spec(self.moving@[ju as int].pos, dd),
                                                ) == req_pos_v,
                                                None => true,
                                            },
                                        decreases nd2 - e,
                                    {
                                        if partner_dir.is_none() {
                                            let dd = {
                                                let r = &self.moving[ju];
                                                r.dirs[e]
                                            };
                                            let jp = {
                                                let r = &self.moving[ju];
                                                r.pos
                                            };
                                            let tt = self.normalize(&jp.directional_offset(dd));
                                            if tt.x == req_pos_v.x && tt.y == req_pos_v.y {
                                                partner_dir = Some(dd);
                                            }
                                        }
                                        e = e + 1;
                                    }
                                    match partner_dir {
                                        Some(dd) => {
                                            self.resolve_swap(
                                                i,
                                                ju,
                                                dir,
                                                dd,
                                                t,
                                                moves,
                                                Ghost(reqs0),
                                            );
                                            return true;
                                        },
                                        None => {},
                                    }
                                }
                            },
                            None => {},
                        }
                    }
                },
                None => {},
            }
            d = d + 1;
        }
        false
    }

    /// Arbitrate all pending requests: repeatedly move any unit whose
    /// candidate cell is free and exchange any mutually-wanting pair, until
    /// nothing changes; everything left stays still. Exactly one move is
    /// returned per requesting unit, and no two distinct units are assigned
    /// the same destination cell — except on a depot during the terminal
    /// phase, where stacking is deliberate.
    #[verifier::rlimit(80)]
    pub fn collect_moves(&mut self) -> (moves: Vec<(ShipId, Direction)>)
        requires
            old(self).wf(),
            old(self).requests_marked(),
        ensures
            final(self).wf(),
            final(self).moving@.len() == 0,
            final(self).width == old(self).width,
            final(self).height == old(self).height,
            final(self).terminal == old(self).terminal,
            final(self).dropoffs == old(self).dropoffs,
            // exactly one entry per requesting unit
            forall|k0: int|
                0 <= k0 < old(self).moving@.len() ==> Self::moves_has(
                    moves@,
                    (#[trigger] old(self).moving@[k0]).ship_id,
                ),
            forall|i: int|
                0 <= i < moves@.len() ==> Self::req_has(
                    old(self).moving@,
                    (#[trigger] moves@[i]).0,
                ),
            forall|i: int, j: int|
                0 <= i < j < moves@.len() ==> (#[trigger] moves@[i]).0 != (
                #[trigger] moves@[j]).0,
            // collision safety: distinct stepped destinations, except depots
            // in the terminal phase
            forall|i: int, j: int|
                0 <= i < moves@.len() && 0 <= j < moves@.len() && i != j && (
                #[trigger] moves@[i]).1 != Direction::Still && (#[trigger] moves@[j]).1
                    != Direction::Still && old(self).dest_spec(
                    old(self).moving@,
                    moves@[i].0,
                    moves@[i].1,
                ) == old(self).dest_spec(old(self).moving@, moves@[j].0, moves@[j].1) ==> (old(
                    self,
                ).terminal && old(self).dropoff_at(
                    old(self).dest_spec(old(self).moving@, moves@[i].0, moves@[i].1),
                )),
    {
        let ghost reqs0 = self.moving@;
        let mut moves: Vec<(ShipId, Direction)> = Vec::new();
        proof {
            assert forall|k: int|
                0 <= k < self.moving@.len() implies Self::req_has(
                reqs0,
                (#[trigger] self.moving@[k]).ship_id,
            ) && Self::req_pos(reqs0, self.moving@[k].ship_id) == self.moving@[k].pos by {
                let id = self.moving@[k].ship_id;
                assert(reqs0[k].ship_id == id);
                assert(Self::req_has(reqs0, id));
                let kc = choose|kk: int| 0 <= kk < reqs0.len() && reqs0[kk].ship_id == id;
                if kc < k {
                    assert(reqs0[kc].ship_id != reqs0[k].ship_id);
                } else if k < kc {
                    assert(reqs0[k].ship_id != reqs0[kc].ship_id);
                }
            }
            assert forall|k0: int|
                0 <= k0 < reqs0.len() implies Self::req_has(
                self.moving@,
                (#[trigger] reqs0[k0]).ship_id,
            ) by {
                assert(self.moving@[k0].ship_id == reqs0[k0].ship_id);
            }
            assert(self.wf());
            assert(self.requests_marked());
            assert(self.reqs_wf(reqs0));
            assert(moves@.len() == 0);
            assert(forall|i: int|
                0 <= i < moves@.len() ==> Self::req_has(reqs0, (#[trigger] moves@[i]).0));
            assert(forall|i: int|
                0 <= i < moves@.len() ==> !Self::req_has(self.moving@, (#[trigger] moves@[i]).0));
            assert(forall|i: int, j: int|
                0 <= i < j < moves@.len() ==> (#[trigger] moves@[i]).0 != (
                #[trigger] moves@[j]).0);
            assert(forall|i: int|
                0 <= i < moves@.len() && (#[trigger] moves@[i]).1 != Direction::Still ==> (
                self.grid_at(self.dest_spec(reqs0, moves@[i].0, moves@[i].1)) == Some(
                    moves@[i].0,
                ) || (self.terminal && self.dropoff_at(
                    self.dest_spec(reqs0, moves@[i].0, moves@[i].1),
                ))));
            assert(self.arbiter_inv(reqs0, moves@));
        }
        let mut progress = true;
        while progress
            invariant
                self.arbiter_inv(reqs0, moves@),
                self.width == old(self).width,
                self.height == old(self).height,
                self.terminal == old(self).terminal,
                self.dropoffs == old(self).dropoffs,
            decreases self.moving@.len(), (if progress {
                1int
            } else {
                0int
            }),
        {
            progress = false;
            let mut i: usize = 0;
            let ghost len0 = self.moving@.len();
            while i < self.moving.len()
                invariant
                    self.arbiter_inv(reqs0, moves@),
                    self.width == old(self).width,
                    self.height == old(self).height,
                    self.terminal == old(self).terminal,
                    self.dropoffs == old(self).dropoffs,
                    self.moving@.len() <= len0,
                    !progress ==> self.moving@.len() == len0,
                    progress ==> self.moving@.len() < len0,
                decreases (self.moving@.len() as int) + 1 - (i as int),
            {
                if self.signal_move(i, &mut moves, Ghost(reqs0)) {
                    progress = true;
                } else {
                    i = i + 1;
                }
            }
        }
        while self.moving.len() > 0
            invariant
                self.arbiter_inv(reqs0, moves@),
                self.width == old(self).width,
                self.height == old(self).height,
                self.terminal == old(self).terminal,
                self.dropoffs == old(self).dropoffs,
            decreases self.moving@.len(),
        {
            let ghost m0 = *self;
            let ghost mv0 = moves@;
            let last = self.moving.pop().unwrap();
            moves.push((last.ship_id, Direction::Still));
            proof {
                let mv = moves@;
                let pend = self.moving@;
                let li = m0.moving@.len() - 1;
                assert(pend =~= m0.moving@.drop_last());
                assert forall|ii: int|
                    0 <= ii < mv.len() implies Self::req_has(reqs0, (#[trigger] mv[ii]).0)
                    && !Self::req_has(pend, mv[ii].0) by {
                    if ii < mv.len() - 1 {
                        if Self::req_has(pend, mv[ii].0) {
                            let k = choose|k: int|
                                0 <= k < pend.len() && (#[trigger] pend[k]).ship_id == mv[ii].0;
                            assert(m0.moving@[k].ship_id == mv[ii].0);
                            assert(false);
                        }
                    } else {
                        assert(mv[ii].0 == last.ship_id);
                        assert(m0.moving@[li] == last);
                        assert(Self::req_has(reqs0, (m0.moving@[li]).ship_id));
                        if Self::req_has(pend, last.ship_id) {
                            let k = choose|k: int|
                                0 <= k < pend.len() && (#[trigger] pend[k]).ship_id
                                    == last.ship_id;
                            assert(m0.moving@[k].ship_id == m0.moving@[li].ship_id);
                            assert(m0.moving@[k].ship_id != m0.moving@[li].ship_id);
                        }
                    }
                }
                assert forall|ii: int, jj: int|
                    0 <= ii < jj < mv.len() implies (#[trigger] mv[ii]).0 != (
                #[trigger] mv[jj]).0 by {
                    if jj == mv.len() - 1 {
                        assert(mv[jj].0 == last.ship_id);
                        assert(Self::req_has(m0.moving@, last.ship_id));
                        assert(!Self::req_has(m0.moving@, mv[ii].0));
                    }
                }
                assert forall|k0: int|
                    0 <= k0 < reqs0.len() implies (Self::req_has(
                    pend,
                    (#[trigger] reqs0[k0]).ship_id,
                ) || Self::moves_has(mv, reqs0[k0].ship_id)) by {
                    let id0 = reqs0[k0].ship_id;
                    if Self::req_has(m0.moving@, id0) {
                        let k = choose|k: int|
                            0 <= k < m0.moving@.len() && (#[trigger] m0.moving@[k]).ship_id == id0;
                        if k == li {
                            assert(mv[mv.len() - 1].0 == last.ship_id);
                            assert(Self::moves_has(mv, id0));
                        } else {
                            assert(pend[k] == m0.moving@[k]);
                            assert(Self::req_has(pend, id0));
                        }
                    } else {
                        assert(Self::moves_has(mv0, id0));
                        let ii = choose|ii: int|
                            0 <= ii < mv0.len() && (#[trigger] mv0[ii]).0 == id0;
                        assert(mv[ii].0 == id0);
                        assert(Self::moves_has(mv, id0));
                    }
                }
                assert(self.arbiter_inv(reqs0, mv));
            }
        }
        proof {
            assert forall|i: int, j: int|
                0 <= i < moves@.len() && 0 <= j < moves@.len() && i != j && (
                #[trigger] moves@[i]).1 != Direction::Still && (#[trigger] moves@[j]).1
                    != Direction::Still && self.dest_spec(reqs0, moves@[i].0, moves@[i].1)
                    == self.dest_spec(reqs0, moves@[j].0, moves@[j].1) implies (self.terminal
                && self.dropoff_at(self.dest_spec(reqs0, moves@[i].0, moves@[i].1))) by {
                let di = self.dest_spec(reqs0, moves@[i].0, moves@[i].1);
                if self.grid_at(di) == Some(moves@[i].0) && self.grid_at(di) == Some(
                    moves@[j].0,
                ) {
                    if i < j {
                        assert(moves@[i].0 != moves@[j].0);
                    } else {
                        assert(moves@[j].0 != moves@[i].0);
                    }
                    assert(false);
                }
            }
            assert(forall|id: ShipId, d: Direction|
                #[trigger] self.dest_spec(reqs0, id, d) == old(self).dest_spec(reqs0, id, d));
        }
        moves
    }

    /// Rebuild the grid from a fresh snapshot: requests and marks are
    /// dropped, the controlled player's depots are recorded (exactly the
    /// home cell and constructed outposts), and each of the controlled
    /// player's units is recorded on its cell. Opposing units are not
    /// mirrored; the engine avoids them through the hazard set instead.
    pub fn update_frame(&mut self, game: &Game)
        requires
            old(self).wf(),
            game.wf(),
            old(self).width == game.width,
            old(self).height == game.height,
        ensures
            final(self).wf(),
            final(self).requests_marked(),
            final(self).moving@.len() == 0,
            final(self).width == old(self).width,
            final(self).height == old(self).height,
            final(self).terminal == old(self).terminal,
            forall|i: int|
                0 <= i < final(self).dropoffs@.len() ==> ((#[trigger] final(self).dropoffs@[i])
                    <==> (cell_index(
                    game.players@[game.my_player_index()].shipyard,
                    game.width as int,
                ) == i || exists|j: int, k: int|
                    0 <= j < game.dropoffs@.len() && 0 <= k < game.players@[
                        game.my_player_index()
                    ].dropoff_ids@.len() && (#[trigger] game.dropoffs@[j]).id == (
                    #[trigger] game.players@[game.my_player_index()].dropoff_ids@[k])
                        && cell_index(game.dropoffs@[j].position, game.width as int) == i)),
            forall|q: Position|
                final(self).on_board(q) ==> ((#[trigger] final(self).grid_at(q)) matches Some(id)
                    ==> exists|j: int|
                    0 <= j < game.ships@.len() && (#[trigger] game.ships@[j]).owner == game.my_id
                        && game.ships@[j].id == id && game.ships@[j].position == q),
            forall|j: int|
                0 <= j < game.ships@.len() && (#[trigger] game.ships@[j]).owner == game.my_id
                    ==> final(self).grid_at(game.ships@[j].position) is Some,
    {
        self.clear();
        let ghost gc = *self;
        let me = game.me();
        proof {
            lemma_cell_index_in_range(me.shipyard, game.width as int, game.height as int);
        }
        let mut dropoffs: Vec<bool> = self.build_dropoff_grid(game);
        self.dropoffs = dropoffs;
        proof {
            assert(self.occupied == gc.occupied);
            assert forall|q: Position|
                self.on_board(q) implies (#[trigger] self.grid_at(q)) is None by {
                assert(self.grid_at(q) == gc.grid_at(q));
            }
        }
        let mut s: usize = 0;
        while s < game.ships.len()
            invariant
                game.wf(),
                self.wf(),
                self.width == game.width,
                self.height == game.height,
                self.terminal == old(self).terminal,
                self.moving@.len() == 0,
                forall|i: int|
                    0 <= i < self.dropoffs@.len() ==> ((#[trigger] self.dropoffs@[i]) <==> (
                    cell_index(
                        game.players@[game.my_player_index()].shipyard,
                        game.width as int,
                    ) == i || exists|j: int, k: int|
                        0 <= j < game.dropoffs@.len() && 0 <= k < game.players@[
                            game.my_player_index()
                        ].dropoff_ids@.len() && (#[trigger] game.dropoffs@[j]).id == (
                        #[trigger] game.players@[game.my_player_index()].dropoff_ids@[k])
                            && cell_index(game.dropoffs@[j].position, game.width as int) == i)),
                s <= game.ships@.len(),
                forall|q: Position|
                    self.on_board(q) ==> ((#[trigger] self.grid_at(q)) matches Some(id)
                        ==> exists|j: int|
                        0 <= j < s && (#[trigger] game.ships@[j]).owner == game.my_id
                            && game.ships@[j].id == id && game.ships@[j].position == q),
                forall|j: int|
                    0 <= j < s && (#[trigger] game.ships@[j]).owner == game.my_id
                        ==> self.grid_at(game.ships@[j].position) is Some,
            decreases game.ships@.len() - s,
        {
            let ship = &game.ships[s];
            if ship.owner.0 == game.my_id.0 {
                let ghost gpre = *self;
                proof {
                    crate::grid::lemma_norm_identity(ship.position.x as int, self.width as int);
                    crate::grid::lemma_norm_identity(ship.position.y as int, self.height as int);
                }
                self.mark_unsafe(&ship.position, ship.id);
                proof {
                    assert forall|q: Position|
                        self.on_board(q) implies ((#[trigger] self.grid_at(q)) matches Some(id)
                        ==> exists|j: int|
                        0 <= j < s + 1 && (#[trigger] game.ships@[j]).owner == game.my_id
                            && game.ships@[j].id == id && game.ships@[j].position == q) by {
                        if q == ship.position {
                            assert(self.grid_at(q) == Some(ship.id));
                            assert(game.ships@[s as int].owner == game.my_id);
                        } else {
                            assert(self.grid_at(q) == gpre.grid_at(q));
                        }
                    }
                    assert forall|j: int|
                        0 <= j < s + 1 && (#[trigger] game.ships@[j]).owner == game.my_id implies
                        self.grid_at(game.ships@[j].position) is Some by {
                        if j < s as int {
                            if game.ships@[j].position != ship.position {
                                assert(self.grid_at(game.ships@[j].position) == gpre.grid_at(
                                    game.ships@[j].position,
                                ));
                            }
                        }
                    }
                }
            }
            s = s + 1;
        }
    }

    /// The controlled player's depot cells (home cell and outposts), as a
    /// row-major grid: a cell is marked exactly when it is the home cell or
    /// the site of one of the controlled player's constructed outposts.
    fn build_dropoff_grid(&self, game: &Game) -> (r: Vec<bool>)
        requires
            self.wf(),
            game.wf(),
            self.width == game.width,
            self.height == game.height,
        ensures
            r@.len() == self.width * self.height,
            forall|i: int|
                0 <= i < r@.len() ==> ((#[trigger] r@[i]) <==> (cell_index(
                    game.players@[game.my_player_index()].shipyard,
                    game.width as int,
                ) == i || exists|j: int, k: int|
                    0 <= j < game.dropoffs@.len() && 0 <= k < game.players@[
                        game.my_player_index()
                    ].dropoff_ids@.len() && (#[trigger] game.dropoffs@[j]).id == (
                    #[trigger] game.players@[game.my_player_index()].dropoff_ids@[k])
                        && cell_index(game.dropoffs@[j].position, game.width as int) == i)),
    {
        proof {
            assert(game.width * game.height <= 0x1000000) by (nonlinear_arith)
                requires 1 <= game.width <= 0x1000, 1 <= game.height <= 0x1000,
            ;
        }
        let me = game.me();
        let ghost me_idx = choose|ix: int|
            0 <= ix < game.players@.len() && game.players@[ix] == *me;
        proof {
            let w = game.my_player_index();
            assert(0 <= w < game.players@.len() && game.players@[w].id == game.my_id);
            assert(game.players@[me_idx].id == game.my_id);
            if w < me_idx {
                assert(game.players@[w].id != game.players@[me_idx].id);
            } else if me_idx < w {
                assert(game.players@[me_idx].id != game.players@[w].id);
            }
            assert(game.players@[w] == *me);
        }
        let area = game.width * game.height;
        let mut dropoffs: Vec<bool> = Vec::new();
        let mut i: usize = 0;
        while i < area
            invariant
                i <= area,
                dropoffs@.len() == i,
                forall|j: int| 0 <= j < i ==> !(#[trigger] dropoffs@[j]),
            decreases area - i,
        {
            dropoffs.push(false);
            i = i + 1;
        }
        proof {
            lemma_cell_index_in_range(me.shipyard, game.width as int, game.height as int);
        }
        let yard = (me.shipyard.y as usize) * game.width + (me.shipyard.x as usize);
        dropoffs.set(yard, true);
        let mut k: usize = 0;
        while k < me.dropoff_ids.len()
            invariant
                game.wf(),
                area == game.width * game.height,
                area <= 0x1000000,
                dropoffs@.len() == area,
                k <= me.dropoff_ids@.len(),
                exists|ix: int| 0 <= ix < game.players@.len() && game.players@[ix] == *me,
                me.id == game.my_id,
                yard == cell_index(me.shipyard, game.width as int),
                yard < area,
                dropoffs@[yard as int],
                forall|i: int|
                    0 <= i < area ==> ((#[trigger] dropoffs@[i]) <==> (yard as int == i || exists|
                        j: int,
                        kk: int,
                    |
                        0 <= j < game.dropoffs@.len() && 0 <= kk < k && (
                        #[trigger] game.dropoffs@[j]).id == (#[trigger] me.dropoff_ids@[kk])
                            && cell_index(game.dropoffs@[j].position, game.width as int) == i)),
            decreases me.dropoff_ids@.len() - k,
        {
            let did = me.dropoff_ids[k];
            match game.dropoff_by_id(did) {
                Some(d) => {
                    proof {
                        lemma_cell_index_in_range(
                            d.position,
                            game.width as int,
                            game.height as int,
                        );
                    }
                    let pi = (d.position.y as usize) * game.width + (d.position.x as usize);
                    let ghost old_grid = dropoffs@;
                    dropoffs.set(pi, true);
                    proof {
                        let jd = choose|ji: int|
                            0 <= ji < game.dropoffs@.len() && game.dropoffs@[ji] == *d && d.id
                                == did;
                        assert forall|i: int|
                            0 <= i < area implies ((#[trigger] dropoffs@[i]) <==> (yard as int == i
                            || exists|j: int, kk: int|
                            0 <= j < game.dropoffs@.len() && 0 <= kk < k + 1 && (
                            #[trigger] game.dropoffs@[j]).id == (#[trigger] me.dropoff_ids@[kk])
                                && cell_index(game.dropoffs@[j].position, game.width as int)
                                == i)) by {
                            if i == pi as int {
                                assert(game.dropoffs@[jd].id == me.dropoff_ids@[k as int]);
                                assert(cell_index(game.dropoffs@[jd].position, game.width as int)
                                    == i);
                            } else {
                                assert(dropoffs@[i] == old_grid[i]);
                                if exists|j: int, kk: int|
                                    0 <= j < game.dropoffs@.len() && 0 <= kk < k + 1 && (
                                    #[trigger] game.dropoffs@[j]).id == (
                                    #[trigger] me.dropoff_ids@[kk]) && cell_index(
                                        game.dropoffs@[j].position,
                                        game.width as int,
                                    ) == i {
                                    let (j, kk): (int, int) = choose|j: int, kk: int|
                                        0 <= j < game.dropoffs@.len() && 0 <= kk < k + 1 && (
                                        #[trigger] game.dropoffs@[j]).id == (
                                        #[trigger] me.dropoff_ids@[kk]) && cell_index(
                                            game.dropoffs@[j].position,
                                            game.width as int,
                                        ) == i;
                                    if kk == k as int {
                                        if j < jd {
                                            assert(game.dropoffs@[j].id != game.dropoffs@[jd].id);
                                        } else if jd < j {
                                            assert(game.dropoffs@[jd].id != game.dropoffs@[j].id);
                                        }
                                        assert(j == jd);
                                        assert(false);
                                    }
                                }
                            }
                        }
                    }
                },
                None => {
                    proof {
                        assert forall|i: int|
                            0 <= i < area implies ((#[trigger] dropoffs@[i]) <==> (yard as int == i
                            || exists|j: int, kk: int|
                            0 <= j < game.dropoffs@.len() && 0 <= kk < k + 1 && (
                            #[trigger] game.dropoffs@[j]).id == (#[trigger] me.dropoff_ids@[kk])
                                && cell_index(game.dropoffs@[j].position, game.width as int)
                                == i)) by {
                            if exists|j: int, kk: int|
                                0 <= j < game.dropoffs@.len() && 0 <= kk < k + 1 && (
                                #[trigger] game.dropoffs@[j]).id == (#[trigger] me.dropoff_ids@[kk])
                                    && cell_index(game.dropoffs@[j].position, game.width as int)
                                    == i {
                                let (j, kk): (int, int) = choose|j: int, kk: int|
                                    0 <= j < game.dropoffs@.len() && 0 <= kk < k + 1 && (
                                    #[trigger] game.dropoffs@[j]).id == (
                                    #[trigger] me.dropoff_ids@[kk]) && cell_index(
                                        game.dropoffs@[j].position,
                                        game.width as int,
                                    ) == i;
                                if kk == k as int {
                                    assert(game.dropoffs@[j].id != did);
                                    assert(false);
                                }
                            }
                        }
                    }
                },
            }
            k = k + 1;
        }
        proof {
            let w = game.my_player_index();
            assert(game.players@[w] == *me);
        }
        dropoffs
    }

    /// Drop all requests and clear the grid.
    pub fn clear(&mut self)
        requires
            old(self).wf(),
        ensures
            final(self).wf(),
            final(self).moving@.len() == 0,
            forall|q: Position|
                final(self).on_board(q) ==> #[trigger] final(self).grid_at(q) is None,
            final(self).width == old(self).width,
            final(self).height == old(self).height,
            final(self).terminal == old(self).terminal,
            final(self).dropoffs == old(self).dropoffs,
    {
        self.moving = Vec::new();
        let mut y: usize = 0;
        while y < self.height
            invariant
                old(self).wf(),
                self.width == old(self).width,
                self.height == old(self).height,
                self.terminal == old(self).terminal,
                self.dropoffs == old(self).dropoffs,
                self.moving@.len() == 0,
                self.occupied@.len() == self.height,
                y <= self.height,
                forall|j: int|
                    0 <= j < self.occupied@.len() ==> (#[trigger] self.occupied@[j])@.len()
                        == self.width,
                forall|j: int, x: int|
                    0 <= j < y && 0 <= x < self.width ==> (#[trigger] self.occupied@[j]@[x])
                        is None,
            decreases self.height - y,
        {
            let width = self.width;
            let row = &mut self.occupied[y];
            let mut x: usize = 0;
            while x < width
                invariant
                    row@.len() == width,
                    x <= width,
                    forall|i: int| 0 <= i < x ==> (#[trigger] row@[i]) is None,
                decreases width - x,
            {
                row.set(x, None);
                x = x + 1;
            }
            y = y + 1;
        }
    }
}

} // verus!
