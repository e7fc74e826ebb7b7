//! The global unit-to-depot assignment step: a saturating score of each
//! (unit, depot, contention-rank) pair is assembled into a matrix and a
//! maximum-weight matching is solved by the Hungarian algorithm of the
//! `pathfinding` crate.

use vstd::prelude::*;
use crate::game::{cell_index, pos_on_board, lemma_cell_index_in_range};
use crate::grid::{Position, norm_coord, norm1};

verus! {

/// The saturating value of sending a unit at effective distance `f` toward a
/// source worth `total`: the full value close by, half at `scale`, fading to
/// nothing far away. The curve is the algebraic sigmoid
/// `(1 + x / (1 + |x|)) / 2` of `x = 4 * (scale - f) / scale`, evaluated in
/// exact integer arithmetic.
pub open spec fn sig_spec(total: int, f: int, scale: int) -> int {
    let p = 4 * (scale - f);
    let q = if p >= 0 {
        scale + p
    } else {
        scale - p
    };
    total * (q + p) / (2 * q)
}

/// Executable saturating score.
pub fn sig(total: usize, f: usize, scale: usize) -> (r: usize)
    requires
        total <= 0x1000_0000,
        f <= 0x100_0000,
        1 <= scale <= 0x10000,
    ensures
        r == sig_spec(total as int, f as int, scale as int),
        r <= total,
{
    let total = total as i64;
    let f = f as i64;
    let scale = scale as i64;
    let p = 4 * (scale - f);
    let q = if p >= 0 {
        scale + p
    } else {
        scale - p
    };
    proof {
        assert(1 <= q <= 0x1000_0000 && 0 <= q + p && q + p <= 2 * q) by (nonlinear_arith)
            requires
                p == 4 * (scale - f),
                q == (if p >= 0 { scale + p } else { scale - p }),
                1 <= scale <= 0x10000,
                0 <= f <= 0x100_0000,
        ;
        assert(0 <= total * (q + p) && total * (q + p) <= total * (2 * q) && total * (2 * q)
            <= 0x1000_0000 * 0x2000_0000) by (nonlinear_arith)
            requires
                0 <= q + p,
                q + p <= 2 * q,
                1 <= q <= 0x1000_0000,
                0 <= total <= 0x1000_0000,
        ;
        assert(total * (q + p) / (2 * q) <= total && 0 <= total * (q + p) / (2 * q)) by (
        nonlinear_arith)
            requires
                0 <= total * (q + p),
                total * (q + p) <= total * (2 * q),
                1 <= q,
                0 <= total,
        ;
    }
    let v = total * (q + p) / (2 * q);
    v as usize
}

/// The total weight of an assignment of rows to columns.
pub open spec fn assignment_weight(weights: Seq<i64>, cols: int, a: Seq<usize>) -> int
    decreases a.len(),
{
    if a.len() == 0 {
        0
    } else {
        assignment_weight(weights, cols, a.drop_last()) + weights[(a.len() - 1) * cols
            + a.last()]
    }
}

/// A total, injective assignment of each row to a distinct column.
pub open spec fn valid_assignment(a: Seq<usize>, rows: int, cols: int) -> bool {
    &&& a.len() == rows
    &&& forall|i: int| 0 <= i < a.len() ==> (#[trigger] a[i]) < cols
    &&& forall|i: int, j: int| 0 <= i < j < a.len() ==> #[trigger] a[i] != #[trigger] a[j]
}

/// Relies on `pathfinding::kuhn_munkres::kuhn_munkres` (with the weights in
/// a `pathfinding::matrix::Matrix`): it computes a maximum-weight matching
/// between rows and columns, returning the column assigned to each row; the
/// number of rows must not exceed the number of columns, and every row is
/// assigned a distinct column. The weight bound keeps the algorithm's
/// internal sums within `i64`.
#[verifier::external_body]
fn max_weight_assignment(rows: usize, cols: usize, weights: &Vec<i64>) -> (r: Vec<usize>)
    requires
        rows <= cols,
        cols <= 0x100_0000,
        weights@.len() == rows * cols,
        forall|i: int|
            0 <= i < weights@.len() ==> -0x4000_0000 <= #[trigger] weights@[i] <= 0x4000_0000,
    ensures
        valid_assignment(r@, rows as int, cols as int),
        forall|b: Seq<usize>|
            valid_assignment(b, rows as int, cols as int) ==> assignment_weight(
                weights@,
                cols as int,
                b,
            ) <= assignment_weight(weights@, cols as int, r@),
{
    let m = pathfinding::matrix::Matrix::from_vec(rows, cols, weights.clone()).unwrap();
    pathfinding::kuhn_munkres::kuhn_munkres(&m).1
}

/// Solve the assignment problem for a weight matrix given row-major.
/// Rows that cannot be assigned (more rows than columns) are given back
/// unassigned: the result is `None` exactly in that case, so a caller can
/// pad the matrix and retry.
pub fn solve_assignment(rows: usize, cols: usize, weights: &Vec<i64>) -> (r: Option<Vec<usize>>)
    requires
        cols <= 0x100_0000,
        weights@.len() == rows * cols,
        forall|i: int|
            0 <= i < weights@.len() ==> -0x4000_0000 <= #[trigger] weights@[i] <= 0x4000_0000,
    ensures
        match r {
            Some(a) => rows <= cols && valid_assignment(a@, rows as int, cols as int) && (forall|
                b: Seq<usize>,
            |
                valid_assignment(b, rows as int, cols as int) ==> assignment_weight(
                    weights@,
                    cols as int,
                    b,
                ) <= assignment_weight(weights@, cols as int, a@)),
            None => rows > cols,
        },
    {
    if rows <= cols {
        Some(max_weight_assignment(rows, cols, weights))
    } else {
        None
    }
}

/// The distance-discounted resource within the square kernel around `p`:
/// each of the `(2K+1)^2` surrounding cells contributes its content divided
/// by one plus its Manhattan offset. `k` counts how many kernel offsets have
/// been folded in, row by row.
pub open spec fn richness_partial(
    cells: Seq<usize>,
    w: int,
    h: int,
    p: Position,
    k: int,
) -> int
    decreases k,
{
    if k <= 0 {
        0
    } else {
        let di = (k - 1) / 31 - 15;
        let dj = (k - 1) % 31 - 15;
        let q = Position {
            x: norm1(p.x + di, w) as i32,
            y: norm1(p.y + dj, h) as i32,
        };
        let d = vstd::math::abs(di) + vstd::math::abs(dj) + 1;
        richness_partial(cells, w, h, p, k - 1) + (cells[cell_index(q, w)] as int) / (d as int)
    }
}

/// The full kernel sum around `p`.
pub open spec fn richness_spec(cells: Seq<usize>, w: int, h: int, p: Position) -> int {
    richness_partial(cells, w, h, p, 961int)
}

/// Executable kernel sum around one cell.
pub fn richness_at(cells: &Vec<usize>, width: usize, height: usize, p: Position) -> (r: usize)
    requires
        1 <= width <= 0x1000,
        1 <= height <= 0x1000,
        cells@.len() == width * height,
        forall|i: int| 0 <= i < cells@.len() ==> #[trigger] cells@[i] <= 0x10000,
        pos_on_board(p, width as int, height as int),
    ensures
        r == richness_spec(cells@, width as int, height as int, p),
        r <= 961 * 0x10000,
{
    let mut sum: usize = 0;
    let mut k: usize = 0;
    while k < 961
        invariant
            1 <= width <= 0x1000,
            1 <= height <= 0x1000,
            cells@.len() == width * height,
            forall|i: int| 0 <= i < cells@.len() ==> #[trigger] cells@[i] <= 0x10000,
            pos_on_board(p, width as int, height as int),
            k <= 961,
            sum == richness_partial(cells@, width as int, height as int, p, k as int),
            sum <= k * 0x10000,
        decreases 961 - k,
    {
        let di = (k as i32) / 31 - 15;
        let dj = (k as i32) % 31 - 15;
        let qx = norm_coord(p.x + di, width as i32);
        let qy = norm_coord(p.y + dj, height as i32);
        let q = Position { x: qx, y: qy };
        proof {
            lemma_cell_index_in_range(q, width as int, height as int);
            assert((k as i32) / 31 == k as int / 31 && (k as i32) % 31 == k as int % 31);
        }
        let adi = if di >= 0 {
            di
        } else {
            -di
        };
        let adj = if dj >= 0 {
            dj
        } else {
            -dj
        };
        let d = (adi + adj + 1) as usize;
        let piece = cells[(qy as usize) * width + (qx as usize)] / d;
        proof {
            assert(piece <= 0x10000) by (nonlinear_arith)
                requires
                    piece == cells@[cell_index(q, width as int)] as int / d as int,
                    cells@[cell_index(q, width as int)] <= 0x10000,
                    d >= 1,
            ;
            assert(sum + piece <= (k + 1) * 0x10000) by (nonlinear_arith)
                requires sum <= k * 0x10000, piece <= 0x10000, k >= 0,
            ;
        }
        sum = sum + piece;
        k = k + 1;
    }
    sum
}

} // verus!
