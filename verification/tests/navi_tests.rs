use halite_engine::grid::{Direction, Position};
use halite_engine::ids::ShipId;
use halite_engine::navi::Navi;

fn p(x: i32, y: i32) -> Position {
    Position { x, y }
}

fn dest(src: Position, dir: Direction, w: i32, h: i32) -> Position {
    let raw = match dir {
        Direction::North => p(src.x, src.y - 1),
        Direction::South => p(src.x, src.y + 1),
        Direction::East => p(src.x + 1, src.y),
        Direction::West => p(src.x - 1, src.y),
        Direction::Still => src,
    };
    p(
        halite_engine::grid::norm_coord(raw.x, w),
        halite_engine::grid::norm_coord(raw.y, h),
    )
}

#[test]
fn get_unsafe_moves_routes_both_axes() {
    let nav = Navi::new(8, 8);
    let moves = nav.get_unsafe_moves(&p(1, 1), &p(3, 0));
    assert_eq!(moves, vec![Direction::East, Direction::North]);
    let moves = nav.get_unsafe_moves(&p(0, 0), &p(7, 0));
    assert_eq!(moves, vec![Direction::West]);
    let moves = nav.get_unsafe_moves(&p(2, 2), &p(2, 2));
    assert!(moves.is_empty());
}

#[test]
fn marks_and_safety_round_trip() {
    let mut nav = Navi::new(6, 6);
    assert!(nav.is_safe(&p(3, 3)));
    nav.mark_unsafe(&p(3, 3), ShipId(1));
    assert!(nav.is_unsafe(&p(3, 3)));
    assert_eq!(nav.get(&p(3, 3)), Some(ShipId(1)));
    nav.mark_safe(&p(3, 3));
    assert!(nav.is_safe(&p(3, 3)));
    // Positions normalize before lookup.
    nav.mark_unsafe(&p(-3, 9), ShipId(2));
    assert_eq!(nav.get(&p(3, 3)), Some(ShipId(2)));
}

#[test]
fn arbitration_moves_unit_into_free_cell() {
    let mut nav = Navi::new(6, 6);
    nav.mark_unsafe(&p(1, 1), ShipId(1));
    nav.naive_navigate(ShipId(1), p(1, 1), p(3, 1));
    let moves = nav.collect_moves();
    assert_eq!(moves, vec![(ShipId(1), Direction::East)]);
}

#[test]
fn arbitration_swaps_mutually_blocking_units() {
    let mut nav = Navi::new(6, 6);
    nav.mark_unsafe(&p(1, 1), ShipId(1));
    nav.mark_unsafe(&p(2, 1), ShipId(2));
    nav.naive_navigate(ShipId(1), p(1, 1), p(2, 1));
    nav.naive_navigate(ShipId(2), p(2, 1), p(1, 1));
    let mut moves = nav.collect_moves();
    moves.sort_by_key(|m| m.0.0);
    assert_eq!(moves, vec![(ShipId(1), Direction::East), (ShipId(2), Direction::West)]);
}

#[test]
fn arbitration_resolves_chains_and_leaves_blocked_units_still() {
    let mut nav = Navi::new(6, 6);
    // Unit 2 blocks unit 1; unit 2 can step on; unit 3 is boxed in by walls
    // of marked cells and must stay.
    nav.mark_unsafe(&p(0, 0), ShipId(1));
    nav.mark_unsafe(&p(1, 0), ShipId(2));
    nav.mark_unsafe(&p(3, 3), ShipId(3));
    nav.mark_unsafe(&p(2, 3), ShipId(9));
    nav.mark_unsafe(&p(4, 3), ShipId(9));
    nav.mark_unsafe(&p(3, 2), ShipId(9));
    nav.mark_unsafe(&p(3, 4), ShipId(9));
    nav.naive_navigate(ShipId(1), p(0, 0), p(2, 0));
    nav.naive_navigate(ShipId(2), p(1, 0), p(2, 0));
    nav.nav(ShipId(3), p(3, 3), Direction::North);
    let mut moves = nav.collect_moves();
    moves.sort_by_key(|m| m.0.0);
    assert_eq!(moves.len(), 3);
    assert_eq!(moves[1], (ShipId(2), Direction::East));
    assert_eq!(moves[2], (ShipId(3), Direction::Still));
    // Unit 1 follows into the vacated cell (worklist pass two) or stays.
    assert!(moves[0] == (ShipId(1), Direction::East) || moves[0] == (ShipId(1), Direction::Still));
}

#[test]
fn collision_safety_no_two_units_share_a_destination() {
    // Four units all wanting the same central cell: exactly one may get it.
    let mut nav = Navi::new(7, 7);
    let sources = [p(2, 3), p(4, 3), p(3, 2), p(3, 4)];
    for (i, s) in sources.iter().enumerate() {
        nav.mark_unsafe(s, ShipId(i));
        nav.naive_navigate(ShipId(i), *s, p(3, 3));
    }
    let moves = nav.collect_moves();
    assert_eq!(moves.len(), 4);
    let mut dests: Vec<Position> = Vec::new();
    for (id, dir) in moves.iter() {
        let src = sources[id.0];
        let d = dest(src, *dir, 7, 7);
        assert!(
            !dests.contains(&d),
            "two units assigned the same destination cell"
        );
        dests.push(d);
    }
}

#[test]
fn every_request_gets_exactly_one_move() {
    let mut nav = Navi::new(5, 5);
    for i in 0..5usize {
        let s = p(i as i32, 0);
        nav.mark_unsafe(&s, ShipId(i));
        nav.naive_navigate(ShipId(i), s, p(i as i32, 2));
    }
    let moves = nav.collect_moves();
    assert_eq!(moves.len(), 5);
    let mut seen: Vec<usize> = moves.iter().map(|m| m.0.0).collect();
    seen.sort();
    assert_eq!(seen, vec![0, 1, 2, 3, 4]);
}
