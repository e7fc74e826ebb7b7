use halite_engine::action::MergedAction;
use halite_engine::constants::Constants;
use halite_engine::game::{Command, Game, Player, Ship};
use halite_engine::grid::{Direction, Position};
use halite_engine::ids::{PlayerId, ShipId};
use halite_engine::plan::PlanBook;
use halite_engine::state::State;
use halite_engine::timeline::{Timeline, MAX_LOOKAHEAD};

fn constants() -> Constants {
    Constants {
        max_halite: 1000,
        move_cost_ratio: 10,
        extract_ratio: 4,
        inspiration_radius: 4,
        inspiration_ship_count: 2,
        inspired_bonus_multiplier: 2,
        ship_cost: 1000,
        dropoff_cost: 4000,
        max_turns: 400,
    }
}

fn game_with_ships(w: usize, h: usize, cell: usize, ships: Vec<Ship>) -> Game {
    let ship_ids = ships.iter().map(|s| s.id).collect();
    Game {
        width: w,
        height: h,
        turn_number: 0,
        my_id: PlayerId(0),
        constants: constants(),
        cells: vec![cell; w * h],
        players: vec![Player {
            id: PlayerId(0),
            halite: 5000,
            shipyard: Position { x: 0, y: 0 },
            ship_ids,
            dropoff_ids: Vec::new(),
        }],
        ships,
        dropoffs: Vec::new(),
    }
}

fn ship(id: usize, x: i32, y: i32, hal: usize) -> Ship {
    Ship { id: ShipId(id), owner: PlayerId(0), position: Position { x, y }, halite: hal }
}

#[test]
fn search_returns_minimum_step_route_to_the_depot() {
    // A 4x4 board, no hazards, one full unit two steps from the only depot:
    // the route home must take exactly two steps, each one closing the
    // distance.
    let game = game_with_ships(4, 4, 50, vec![ship(1, 2, 0, 1000)]);
    let mut paths = PlanBook::new();
    let mut tl = Timeline::from(&game, Vec::new(), &mut paths);
    let start = MergedAction::new(ShipId(1), Position { x: 2, y: 0 }, 1000);
    let found = tl
        .path(start, 0, (Position { x: 0, y: 0 }, 0), MAX_LOOKAHEAD)
        .expect("a route home must exist");
    // Three nodes: the start cell and one per step.
    assert_eq!(found.len(), 3);
    assert_eq!(found[0].pos, Position { x: 2, y: 0 });
    assert_eq!(found[2].pos, Position { x: 0, y: 0 });
    // The unit deposits on arrival: cargo is forfeited into the bank.
    assert_eq!(found[2].halite, 0);
    assert!(found[2].returned > 0);
}

#[test]
fn replay_is_idempotent_for_an_unpoisoned_plan() {
    // Construct the timeline twice from the same snapshot and commit plans
    // both times: the committed plans and the predicted per-offset unit
    // states must be identical, so replay reproduces what was computed.
    let game = game_with_ships(5, 5, 100, vec![ship(1, 3, 0, 1000)]);
    let mut paths_a = PlanBook::new();
    let mut tl_a = Timeline::from(&game, Vec::new(), &mut paths_a);
    let _ = tl_a.path_ships(&mut paths_a);
    let plans_a: Vec<(ShipId, Vec<_>)> = paths_a
        .plans
        .iter()
        .map(|(id, q)| (*id, q.iter().cloned().collect()))
        .collect();
    let mut paths_b = PlanBook::new();
    let mut tl_b = Timeline::from(&game, Vec::new(), &mut paths_b);
    let _ = tl_b.path_ships(&mut paths_b);
    let plans_b: Vec<(ShipId, Vec<_>)> = paths_b
        .plans
        .iter()
        .map(|(id, q)| (*id, q.iter().cloned().collect()))
        .collect();
    assert_eq!(plans_a.len(), plans_b.len());
    for (a, b) in plans_a.iter().zip(plans_b.iter()) {
        assert_eq!(a.0, b.0);
        assert_eq!(a.1, b.1);
    }
    assert_eq!(tl_a.timeline.len(), tl_b.timeline.len());
    for (sa, sb) in tl_a.timeline.iter().zip(tl_b.timeline.iter()) {
        assert_eq!(sa.turn, sb.turn);
        assert_eq!(sa.map, sb.map);
        assert_eq!(sa.halite, sb.halite);
        let mut ra: Vec<_> = sa.ships.iter().map(|r| (r.id, r.pos, r.halite)).collect();
        let mut rb: Vec<_> = sb.ships.iter().map(|r| (r.id, r.pos, r.halite)).collect();
        ra.sort_by_key(|e| e.0.0);
        rb.sort_by_key(|e| e.0.0);
        assert_eq!(ra, rb);
    }
}

#[test]
fn emitted_commands_pass_the_legality_check() {
    // A simulated run: every emitted move must satisfy `can_apply` against
    // the turn's state before it is applied.
    let game = game_with_ships(
        5,
        5,
        100,
        vec![ship(1, 2, 2, 1000), ship(2, 4, 4, 500), ship(3, 1, 3, 0)],
    );
    let mut paths = PlanBook::new();
    let mut tl = Timeline::from(&game, Vec::new(), &mut paths);
    let commands = tl.path_ships(&mut paths);
    let mut st = State::from(&game);
    for s in game.ships.iter() {
        st.add_ship(s);
    }
    let mut seen: Vec<usize> = Vec::new();
    for c in commands.iter() {
        match c {
            Command::Move(id, dir) => {
                assert!(!seen.contains(&id.0), "two commands for one unit");
                seen.push(id.0);
                let (pos, _) = st.ship(*id);
                let dest = st.normalize(pos.directional_offset(*dir));
                let action = halite_engine::action::Action::new(
                    *id,
                    *dir,
                    st.is_inspired(dest),
                    false,
                    false,
                );
                assert!(st.can_apply(action), "illegal command emitted");
                assert!(st.try_apply(action));
            },
            Command::Convert(id) => {
                seen.push(id.0);
            },
            Command::Spawn => {},
        }
    }
    // Exactly one command per live unit.
    assert_eq!(seen.len(), 3);
}

#[test]
fn spawn_requires_funds_and_a_free_home_cell() {
    let game = game_with_ships(5, 5, 100, Vec::new());
    let mut paths = PlanBook::new();
    let mut tl = Timeline::from(&game, Vec::new(), &mut paths);
    // Bank holds 5000 >= 1000 and the home cell is free next turn.
    assert!(tl.spawn_ship());
    let mut poor = game_with_ships(5, 5, 100, Vec::new());
    poor.players[0].halite = 10;
    let mut paths = PlanBook::new();
    let mut tl = Timeline::from(&poor, Vec::new(), &mut paths);
    assert!(!tl.spawn_ship());
}

#[test]
fn timeline_extends_lazily_with_advancing_turns() {
    let game = game_with_ships(4, 4, 10, Vec::new());
    let mut paths = PlanBook::new();
    let mut tl = Timeline::from(&game, Vec::new(), &mut paths);
    let t5 = tl.state(5).turn;
    assert_eq!(t5, 5);
    let t0 = tl.state(0).turn;
    assert_eq!(t0, 0);
}

#[test]
fn poisoned_plan_is_discarded_and_unit_rejoins_the_pool() {
    // A committed plan whose next step is illegal (not enough cargo to move)
    // is poisoned at offset zero and dropped.
    let game = game_with_ships(5, 5, 100, vec![ship(1, 2, 2, 0)]);
    let mut paths = PlanBook::new();
    let mut q = std::collections::VecDeque::new();
    q.push_back(halite_engine::action::Action::new(
        ShipId(1),
        Direction::North,
        false,
        false,
        false,
    ));
    paths.insert(ShipId(1), q);
    let tl = Timeline::from(&game, Vec::new(), &mut paths);
    assert_eq!(paths.plans.len(), 0);
    assert_eq!(tl.unpathed.len(), 1);
    assert_eq!(tl.unpathed[0].0.ship_id, ShipId(1));
}

#[test]
fn scenario_unit_on_rich_depot_cell_stays_to_mine_first() {
    // Board 5x5, uniform 100 resource, extract_ratio 4, move_cost_ratio 10,
    // one empty unit with capacity 1000 standing on the depot at the
    // origin: the first emitted action is "stay" (mining), and one mining
    // step yields ceil(100 / 4) = 25.
    let game = game_with_ships(5, 5, 100, vec![ship(1, 0, 0, 0)]);
    let mut paths = PlanBook::new();
    let mut tl = Timeline::from(&game, Vec::new(), &mut paths);
    let commands = tl.path_ships(&mut paths);
    let mut first = None;
    for c in commands.iter() {
        if let Command::Move(id, dir) = c {
            if *id == ShipId(1) {
                first = Some(*dir);
            }
        }
    }
    assert_eq!(first, Some(Direction::Still));
    let mut st = State::from(&game);
    st.add_ship(&ship(1, 0, 0, 0));
    st.mine_ship(ShipId(1));
    assert_eq!(st.ship(ShipId(1)).1, 25);
}
