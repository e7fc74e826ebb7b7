use halite_engine::grid::{Direction, Position, norm_coord, route_direction, toroidal_distance};

fn p(x: i32, y: i32) -> Position {
    Position { x, y }
}

#[test]
fn normalize_wraps_negative_and_large_coordinates() {
    assert_eq!(norm_coord(-1, 5), 4);
    assert_eq!(norm_coord(5, 5), 0);
    assert_eq!(norm_coord(-6, 5), 4);
    assert_eq!(norm_coord(17, 5), 2);
    assert_eq!(norm_coord(0, 1), 0);
    assert_eq!(norm_coord(-2147483648, 7), norm_coord(-2147483648 % 7 + 7, 7));
}

#[test]
fn distance_is_symmetric_and_zero_on_self() {
    let dims = [(5, 5), (4, 7), (1, 1), (8, 3)];
    for &(w, h) in dims.iter() {
        for x1 in 0..w {
            for y1 in 0..h {
                for x2 in 0..w {
                    for y2 in 0..h {
                        let a = p(x1, y1);
                        let b = p(x2, y2);
                        assert_eq!(
                            toroidal_distance(a, b, w, h),
                            toroidal_distance(b, a, w, h)
                        );
                    }
                }
                assert_eq!(toroidal_distance(p(x1, y1), p(x1, y1), w, h), 0);
            }
        }
    }
}

#[test]
fn distance_uses_wraparound() {
    assert_eq!(toroidal_distance(p(0, 0), p(4, 0), 5, 5), 1);
    assert_eq!(toroidal_distance(p(0, 0), p(2, 2), 5, 5), 4);
    assert_eq!(toroidal_distance(p(1, 1), p(3, 4), 5, 5), 4);
}

#[test]
fn routed_step_decreases_distance_by_one() {
    let w = 6;
    let h = 5;
    for ax in 0..w {
        for ay in 0..h {
            for bx in 0..w {
                for by in 0..h {
                    let a = p(ax, ay);
                    let b = p(bx, by);
                    if a == b {
                        assert_eq!(route_direction(a, b, w, h), Direction::Still);
                        continue;
                    }
                    let d0 = toroidal_distance(a, b, w, h);
                    let dir = route_direction(a, b, w, h);
                    let stepped = match dir {
                        Direction::North => p(ax, norm(ay - 1, h)),
                        Direction::South => p(ax, norm(ay + 1, h)),
                        Direction::East => p(norm(ax + 1, w), ay),
                        Direction::West => p(norm(ax - 1, w), ay),
                        Direction::Still => a,
                    };
                    let d1 = toroidal_distance(stepped, b, w, h);
                    assert_eq!(d1 + 1, d0);
                }
            }
        }
    }
}

fn norm(x: i32, m: i32) -> i32 {
    norm_coord(x, m)
}

#[test]
fn invert_direction_round_trips() {
    for d in [
        Direction::North,
        Direction::South,
        Direction::East,
        Direction::West,
        Direction::Still,
    ] {
        assert_eq!(d.invert_direction().invert_direction(), d);
    }
    assert_eq!(Direction::North.invert_direction(), Direction::South);
    assert_eq!(Direction::East.invert_direction(), Direction::West);
}
