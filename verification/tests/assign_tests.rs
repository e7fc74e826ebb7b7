use halite_engine::assign::{richness_at, sig, solve_assignment};
use halite_engine::grid::Position;

#[test]
fn sig_is_half_at_scale_and_saturates() {
    // At distance equal to the scale the curve sits at exactly half.
    assert_eq!(sig(1000, 80, 80), 500);
    // Close by it approaches the full value, far away it fades out.
    assert_eq!(sig(1000, 0, 80), 900);
    let far = sig(1000, 8000, 80);
    assert!(far < 100);
    let near = sig(1000, 10, 80);
    let mid = sig(1000, 40, 80);
    assert!(near > mid && mid > 500);
    assert_eq!(sig(0, 17, 80), 0);
}

#[test]
fn richness_discounts_by_distance() {
    // A single 100-resource cell in an empty 40x40 board: the kernel sum at
    // that cell is 100; one step away it is 100 / 2 = 50.
    let w = 40usize;
    let h = 40usize;
    let mut cells = vec![0usize; w * h];
    cells[20 * w + 20] = 100;
    let at = richness_at(&cells, w, h, Position { x: 20, y: 20 });
    assert_eq!(at, 100);
    let beside = richness_at(&cells, w, h, Position { x: 21, y: 20 });
    assert_eq!(beside, 50);
    let diagonal = richness_at(&cells, w, h, Position { x: 21, y: 21 });
    assert_eq!(diagonal, 33);
}

fn brute_force_best(rows: usize, cols: usize, weights: &[i64]) -> i64 {
    let mut cols_vec: Vec<usize> = (0..cols).collect();
    let mut best = i64::MIN;
    permute(&mut cols_vec, 0, rows, weights, cols, &mut best);
    best
}

fn permute(
    cols_vec: &mut Vec<usize>,
    k: usize,
    rows: usize,
    weights: &[i64],
    cols: usize,
    best: &mut i64,
) {
    if k == rows {
        let mut total = 0i64;
        for r in 0..rows {
            total += weights[r * cols + cols_vec[r]];
        }
        if total > *best {
            *best = total;
        }
        return;
    }
    for i in k..cols_vec.len() {
        cols_vec.swap(k, i);
        permute(cols_vec, k + 1, rows, weights, cols, best);
        cols_vec.swap(k, i);
    }
}

#[test]
fn matching_is_optimal_against_brute_force() {
    // A hand-built scoring matrix (the gallery example of the solver's own
    // documentation, plus asymmetric and padded cases).
    let weights: Vec<i64> = vec![100, 110, 90, 95, 130, 75, 95, 140, 65];
    let m = solve_assignment(3, 3, &weights).unwrap();
    let total: i64 = (0..3).map(|r| weights[r * 3 + m[r]]).sum();
    assert_eq!(total, 325);
    assert_eq!(total, brute_force_best(3, 3, &weights));
    assert_eq!(m, vec![2, 0, 1]);

    let weights: Vec<i64> = vec![
        7, 3, 1, 9, 2, 8, 6, 4, 5, 5, 5, 5, 1, 2, 3, 4, 9, 9, 1, 1, 3, 1, 4, 1,
    ];
    let m = solve_assignment(4, 6, &weights).unwrap();
    let total: i64 = (0..4).map(|r| weights[r * 6 + m[r]]).sum();
    assert_eq!(total, brute_force_best(4, 6, &weights));
    // Columns are pairwise distinct.
    for a in 0..4 {
        for b in (a + 1)..4 {
            assert_ne!(m[a], m[b]);
        }
    }

    let weights: Vec<i64> = vec![-5, -1, -7, -2, -3, -4];
    let m = solve_assignment(2, 3, &weights).unwrap();
    let total: i64 = (0..2).map(|r| weights[r * 3 + m[r]]).sum();
    assert_eq!(total, brute_force_best(2, 3, &weights));
}

#[test]
fn more_rows_than_columns_is_refused() {
    let weights: Vec<i64> = vec![1, 2, 3, 4, 5, 6];
    assert!(solve_assignment(3, 2, &weights).is_none());
}
