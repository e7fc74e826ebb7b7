//! Positions and directions on a toroidal board, with wrap-around
//! normalization, the toroidal (Manhattan-with-wrap) distance, and the
//! routing choice of which cardinal step brings a unit closer to a target.

use vstd::prelude::*;
use vstd::arithmetic::div_mod::lemma_fundamental_div_mod_converse;

verus! {

/// A cell coordinate pair. Coordinates may be unnormalized (outside the
/// board); `normalize` wraps them onto the board.
#[derive(PartialEq, Eq, Structural, Clone, Copy, Debug, Hash)]
pub struct Position {
    pub x: i32,
    pub y: i32,
}

/// One of the four cardinal moves, or staying on the current cell.
#[derive(PartialEq, Eq, Structural, Clone, Copy, Debug, Hash)]
pub enum Direction {
    North,
    South,
    East,
    West,
    Still,
}

impl Direction {
    /// The four cardinal directions, in a fixed enumeration order.
    pub fn get_all_cardinals() -> (r: Vec<Direction>)
        ensures
            r@ =~= seq![Direction::North, Direction::South, Direction::East, Direction::West],
    {
        let mut v: Vec<Direction> = Vec::new();
        v.push(Direction::North);
        v.push(Direction::South);
        v.push(Direction::East);
        v.push(Direction::West);
        v
    }

    pub open spec fn invert_spec(self) -> Direction {
        match self {
            Direction::North => Direction::South,
            Direction::South => Direction::North,
            Direction::East => Direction::West,
            Direction::West => Direction::East,
            Direction::Still => Direction::Still,
        }
    }

    /// The opposite direction; `Still` is its own opposite.
    pub fn invert_direction(self) -> (r: Direction)
        ensures
            r == self.invert_spec(),
    {
        match self {
            Direction::North => Direction::South,
            Direction::South => Direction::North,
            Direction::East => Direction::West,
            Direction::West => Direction::East,
            Direction::Still => Direction::Still,
        }
    }
}

/// The coordinate delta of one step in a direction.
pub open spec fn dir_dx(d: Direction) -> int {
    match d {
        Direction::East => 1,
        Direction::West => -1,
        _ => 0,
    }
}

pub open spec fn dir_dy(d: Direction) -> int {
    match d {
        Direction::South => 1,
        Direction::North => -1,
        _ => 0,
    }
}

/// The (unnormalized) cell one step away in direction `d`.
pub open spec fn offset_spec(p: Position, d: Direction) -> Position {
    Position { x: (p.x + dir_dx(d)) as i32, y: (p.y + dir_dy(d)) as i32 }
}

impl Position {
    /// The (unnormalized) cell one step away in direction `d`.
    pub fn directional_offset(self, d: Direction) -> (r: Position)
        requires
            -0x4000_0000 < self.x < 0x4000_0000,
            -0x4000_0000 < self.y < 0x4000_0000,
        ensures
            r.x == self.x + dir_dx(d),
            r.y == self.y + dir_dy(d),
            r == offset_spec(self, d),
    {
        match d {
            Direction::North => Position { x: self.x, y: self.y - 1 },
            Direction::South => Position { x: self.x, y: self.y + 1 },
            Direction::East => Position { x: self.x + 1, y: self.y },
            Direction::West => Position { x: self.x - 1, y: self.y },
            Direction::Still => self,
        }
    }
}

/// Euclidean remainder: the representative of `x` modulo `w` in `[0, w)`.
pub open spec fn norm1(x: int, w: int) -> int {
    x % w
}

proof fn lemma_neg_mod(y: int, w: int)
    requires
        w >= 1,
        y >= 0,
    ensures
        (-y - 1) % w == w - 1 - (y % w),
{
    let q = y / w;
    let r = y % w;
    vstd::arithmetic::div_mod::lemma_fundamental_div_mod(y, w);
    assert(-y - 1 == (-q - 1) * w + (w - 1 - r)) by (nonlinear_arith)
        requires y == q * w + r,
    ;
    lemma_fundamental_div_mod_converse(-y - 1, w, -q - 1, w - 1 - r);
}

/// Wrap a single coordinate onto `[0, w)`.
pub fn norm_coord(x: i32, w: i32) -> (r: i32)
    requires
        1 <= w,
    ensures
        r == norm1(x as int, w as int),
        0 <= r < w,
{
    let wu = w as u32;
    if x >= 0 {
        let m = (x as u32) % wu;
        m as i32
    } else {
        let y = (-(x + 1)) as u32;
        let m = y % wu;
        proof {
            lemma_neg_mod(y as int, w as int);
        }
        (w - 1) - (m as i32)
    }
}

/// A coordinate already on the board is unchanged by normalization.
pub proof fn lemma_norm_identity(x: int, w: int)
    requires
        1 <= w,
        0 <= x < w,
    ensures
        norm1(x, w) == x,
{
    lemma_fundamental_div_mod_converse(x, w, 0, x);
}

/// Distance between two already-normalized coordinates on a ring of width `w`:
/// the shorter of the direct and the wrapped way round.
pub open spec fn ring_dist(a: int, b: int, w: int) -> int {
    let d = vstd::math::abs(a - b) as int;
    vstd::math::min(d, w - d)
}

/// Toroidal distance between two normalized positions.
pub open spec fn toroidal_dist(a: Position, b: Position, w: int, h: int) -> int {
    ring_dist(a.x as int, b.x as int, w) + ring_dist(a.y as int, b.y as int, h)
}

/// The toroidal distance is symmetric.
pub proof fn lemma_distance_symmetric(a: Position, b: Position, w: int, h: int)
    ensures
        toroidal_dist(a, b, w, h) == toroidal_dist(b, a, w, h),
{
}

/// The toroidal distance from a position to itself is zero.
pub proof fn lemma_distance_zero(a: Position, w: int, h: int)
    requires
        w >= 1,
        h >= 1,
    ensures
        toroidal_dist(a, a, w, h) == 0,
{
}

/// The east/west choice that shortens the ring distance on the x axis,
/// given two distinct normalized coordinates.
pub open spec fn route_dir_x(ax: int, bx: int, w: int) -> Direction {
    if ax < bx {
        if bx - ax > w - (bx - ax) {
            Direction::West
        } else {
            Direction::East
        }
    } else {
        if ax - bx < w - (ax - bx) {
            Direction::West
        } else {
            Direction::East
        }
    }
}

/// The north/south choice that shortens the ring distance on the y axis.
pub open spec fn route_dir_y(ay: int, by: int, h: int) -> Direction {
    if ay < by {
        if by - ay > h - (by - ay) {
            Direction::North
        } else {
            Direction::South
        }
    } else {
        if ay - by < h - (ay - by) {
            Direction::North
        } else {
            Direction::South
        }
    }
}

/// The direction a unit should step from normalized `a` toward normalized
/// `b`: the x axis is routed first, then the y axis, `Still` at the target.
pub open spec fn route_dir(a: Position, b: Position, w: int, h: int) -> Direction {
    if a == b {
        Direction::Still
    } else if a.x != b.x {
        route_dir_x(a.x as int, b.x as int, w)
    } else {
        route_dir_y(a.y as int, b.y as int, h)
    }
}

proof fn lemma_ring_step(a: int, b: int, w: int, delta: int)
    requires
        w >= 1,
        0 <= a < w,
        0 <= b < w,
        a != b,
        delta == (if route_dir_x(a, b, w) == Direction::East { 1int } else { -1int }),
    ensures
        ring_dist(norm1(a + delta, w), b, w) == ring_dist(a, b, w) - 1,
        0 <= norm1(a + delta, w) < w,
{
    if a + delta == w {
        lemma_fundamental_div_mod_converse(a + delta, w, 1, 0);
    } else if a + delta == -1 {
        lemma_fundamental_div_mod_converse(a + delta, w, -1, w - 1);
    } else {
        lemma_fundamental_div_mod_converse(a + delta, w, 0, a + delta);
    }
}

/// Stepping in the routed direction from a normalized position strictly
/// decreases the toroidal distance to the target by exactly one, whenever the
/// two positions differ.
pub proof fn lemma_step_decreases_distance(a: Position, b: Position, w: int, h: int)
    requires
        1 <= w <= 0x7fff_ffff,
        1 <= h <= 0x7fff_ffff,
        0 <= a.x < w,
        0 <= a.y < h,
        0 <= b.x < w,
        0 <= b.y < h,
        a != b,
    ensures
        ({
            let d = route_dir(a, b, w, h);
            let stepped = Position {
                x: norm1(a.x + dir_dx(d), w) as i32,
                y: norm1(a.y + dir_dy(d), h) as i32,
            };
            toroidal_dist(stepped, b, w, h) == toroidal_dist(a, b, w, h) - 1
        }),
{
    let d = route_dir(a, b, w, h);
    if a.x != b.x {
        let delta = if d == Direction::East { 1int } else { -1int };
        lemma_ring_step(a.x as int, b.x as int, w, delta);
        lemma_fundamental_div_mod_converse(a.y as int, h, 0, a.y as int);
    } else {
        let delta = if d == Direction::South { 1int } else { -1int };
        assert(route_dir_y(a.y as int, b.y as int, h) == d);
        assert(delta == (if route_dir_x(a.y as int, b.y as int, h) == Direction::East {
            1int
        } else {
            -1int
        }));
        lemma_ring_step(a.y as int, b.y as int, h, delta);
        lemma_fundamental_div_mod_converse(a.x as int, w, 0, a.x as int);
    }
}

/// Executable toroidal distance over normalized positions.
pub fn toroidal_distance(a: Position, b: Position, w: i32, h: i32) -> (r: usize)
    requires
        1 <= w <= 0x1000,
        1 <= h <= 0x1000,
        0 <= a.x < w,
        0 <= a.y < h,
        0 <= b.x < w,
        0 <= b.y < h,
    ensures
        r == toroidal_dist(a, b, w as int, h as int),
{
    let dx = if a.x >= b.x {
        a.x - b.x
    } else {
        b.x - a.x
    };
    let dy = if a.y >= b.y {
        a.y - b.y
    } else {
        b.y - a.y
    };
    let rx = if dx <= w - dx {
        dx
    } else {
        w - dx
    };
    let ry = if dy <= h - dy {
        dy
    } else {
        h - dy
    };
    (rx + ry) as usize
}

/// Executable routing choice over normalized positions.
pub fn route_direction(a: Position, b: Position, w: i32, h: i32) -> (r: Direction)
    requires
        1 <= w <= 0x1000,
        1 <= h <= 0x1000,
        0 <= a.x < w,
        0 <= a.y < h,
        0 <= b.x < w,
        0 <= b.y < h,
    ensures
        r == route_dir(a, b, w as int, h as int),
{
    if a.x == b.x && a.y == b.y {
        Direction::Still
    } else if a.x != b.x {
        if a.x < b.x {
            if (b.x - a.x) > w - (b.x - a.x) {
                Direction::West
            } else {
                Direction::East
            }
        } else {
            if (a.x - b.x) < w - (a.x - b.x) {
                Direction::West
            } else {
                Direction::East
            }
        }
    } else {
        if a.y < b.y {
            if (b.y - a.y) > h - (b.y - a.y) {
                Direction::North
            } else {
                Direction::South
            }
        } else {
            if (a.y - b.y) < h - (a.y - b.y) {
                Direction::North
            } else {
                Direction::South
            }
        }
    }
}

} // verus!
