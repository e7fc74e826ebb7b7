use halite_engine::action::Action;
use halite_engine::constants::Constants;
use halite_engine::game::{Game, Player, Ship};
use halite_engine::grid::{Direction, Position};
use halite_engine::ids::{PlayerId, ShipId};
use halite_engine::state::State;

fn constants() -> Constants {
    Constants {
        max_halite: 1000,
        move_cost_ratio: 10,
        extract_ratio: 4,
        inspiration_radius: 4,
        inspiration_ship_count: 2,
        inspired_bonus_multiplier: 2,
        ship_cost: 1000,
        dropoff_cost: 4000,
        max_turns: 400,
    }
}

fn uniform_game(w: usize, h: usize, cell: usize) -> Game {
    Game {
        width: w,
        height: h,
        turn_number: 0,
        my_id: PlayerId(0),
        constants: constants(),
        cells: vec![cell; w * h],
        players: vec![Player {
            id: PlayerId(0),
            halite: 5000,
            shipyard: Position { x: 0, y: 0 },
            ship_ids: Vec::new(),
            dropoff_ids: Vec::new(),
        }],
        ships: Vec::new(),
        dropoffs: Vec::new(),
    }
}

fn ship(id: usize, x: i32, y: i32, hal: usize) -> Ship {
    Ship { id: ShipId(id), owner: PlayerId(0), position: Position { x, y }, halite: hal }
}

fn total(state: &State) -> usize {
    let cells: usize = state.map.iter().sum();
    let cargo: usize = state.ships.iter().map(|r| r.halite).sum();
    cells + cargo
}

#[test]
fn mining_conserves_cell_plus_cargo_total() {
    let game = uniform_game(5, 5, 100);
    let mut st = State::from(&game);
    st.add_ship(&ship(1, 2, 2, 0));
    st.add_ship(&ship(2, 4, 4, 10));
    let before = total(&st);
    for _ in 0..6 {
        st.mine_ship(ShipId(1));
        assert_eq!(total(&st), before);
        st.mine_ship(ShipId(2));
        assert_eq!(total(&st), before);
    }
    assert_eq!(st.halite, 5000);
}

#[test]
fn scenario_uniform_board_first_mine_yields_twenty_five() {
    // Board 5x5, 100 resource everywhere, extract_ratio 4, move_cost_ratio
    // 10, one unit with capacity 1000 on the depot cell at the origin.
    let game = uniform_game(5, 5, 100);
    let mut st = State::from(&game);
    st.add_ship(&ship(7, 0, 0, 0));
    // Mining beats moving away here: a move costs 10 and forfeits the best
    // cell, so the engine's successors price staying strictly better.
    st.mine_ship(ShipId(7));
    let (pos, cargo) = st.ship(ShipId(7));
    assert_eq!(pos, Position { x: 0, y: 0 });
    assert_eq!(cargo, 25);
    assert_eq!(st.halite(Position { x: 0, y: 0 }), 75);
}

#[test]
fn mined_amount_is_capped_by_capacity() {
    let game = uniform_game(3, 3, 100);
    let mut st = State::from(&game);
    st.add_ship(&ship(1, 1, 1, 995));
    st.mine_ship(ShipId(1));
    let (_, cargo) = st.ship(ShipId(1));
    assert_eq!(cargo, 1000);
    assert_eq!(st.halite(Position { x: 1, y: 1 }), 95);
}

#[test]
fn move_debits_cost_and_deposits_on_depot() {
    let game = uniform_game(5, 5, 100);
    let mut st = State::from(&game);
    st.add_ship(&ship(1, 1, 0, 500));
    let bank0 = st.halite;
    // Moving off a 100-resource cell costs floor(100 / 10) = 10.
    st.move_ship(ShipId(1), Direction::West);
    let (pos, cargo) = st.ship(ShipId(1));
    assert_eq!(pos, Position { x: 0, y: 0 });
    // The destination is the home depot: the remaining 490 is banked.
    assert_eq!(cargo, 0);
    assert_eq!(st.halite, bank0 + 490);
}

#[test]
fn can_apply_rejects_unaffordable_move_and_stale_bonus_flag() {
    let game = uniform_game(5, 5, 100);
    let mut st = State::from(&game);
    st.add_ship(&ship(1, 2, 2, 5));
    // Cost to leave is 10 but cargo is 5.
    let bad_move = Action::new(ShipId(1), Direction::North, false, false, false);
    assert!(!st.can_apply(bad_move));
    // Staying is legal with a matching bonus expectation...
    let stay = Action::new(ShipId(1), Direction::Still, false, false, false);
    assert!(st.can_apply(stay));
    // ...and rejected when the recorded expectation is stale.
    let stale = Action::new(ShipId(1), Direction::Still, true, false, false);
    assert!(!st.can_apply(stale));
    // try_apply leaves the state untouched on a rejected action.
    let cargo_before = st.ship(ShipId(1)).1;
    assert!(!st.try_apply(bad_move));
    assert_eq!(st.ship(ShipId(1)).1, cargo_before);
}

#[test]
fn hazard_blocks_moves_except_onto_depots() {
    let mut game = uniform_game(5, 5, 0);
    game.ships.push(Ship {
        id: ShipId(9),
        owner: PlayerId(1),
        position: Position { x: 2, y: 1 },
        halite: 0,
    });
    let mut st = State::from(&game);
    st.add_ship(&ship(1, 2, 2, 100));
    let into_hazard = Action::new(ShipId(1), Direction::North, false, false, false);
    assert!(!st.can_apply(into_hazard));
    let sideways = Action::new(ShipId(1), Direction::South, false, false, false);
    assert!(st.can_apply(sideways));
}

#[test]
fn advance_dilates_hazards_exactly_once() {
    let mut game = uniform_game(5, 5, 0);
    game.ships.push(Ship {
        id: ShipId(9),
        owner: PlayerId(1),
        position: Position { x: 2, y: 2 },
        halite: 0,
    });
    let st = State::from(&game);
    let st1 = st.next();
    // After the first advance the four neighbors are hazardous too.
    assert!(st1.is_hazard(Position { x: 2, y: 2 }));
    assert!(st1.is_hazard(Position { x: 1, y: 2 }));
    assert!(st1.is_hazard(Position { x: 3, y: 2 }));
    assert!(st1.is_hazard(Position { x: 2, y: 1 }));
    assert!(st1.is_hazard(Position { x: 2, y: 3 }));
    assert!(!st1.is_hazard(Position { x: 0, y: 0 }));
    // Later advances leave the hazard set unchanged.
    let st2 = st1.next();
    assert!(!st2.is_hazard(Position { x: 0, y: 2 }));
}

#[test]
fn inspiration_requires_enough_enemies_in_radius() {
    let mut game = uniform_game(9, 9, 10);
    game.ships.push(Ship {
        id: ShipId(20),
        owner: PlayerId(1),
        position: Position { x: 4, y: 3 },
        halite: 0,
    });
    let st = State::from(&game);
    // One enemy within the radius is not enough for a count of two.
    assert!(!st.is_inspired(Position { x: 4, y: 4 }));
    game.ships.push(Ship {
        id: ShipId(21),
        owner: PlayerId(1),
        position: Position { x: 5, y: 4 },
        halite: 0,
    });
    let st = State::from(&game);
    assert!(st.is_inspired(Position { x: 4, y: 4 }));
    assert!(!st.is_inspired(Position { x: 0, y: 8 }));
}

#[test]
fn enemy_value_averages_adjacent_hazards() {
    let mut game = uniform_game(7, 7, 0);
    game.ships.push(Ship {
        id: ShipId(30),
        owner: PlayerId(1),
        position: Position { x: 3, y: 3 },
        halite: 100,
    });
    game.ships.push(Ship {
        id: ShipId(31),
        owner: PlayerId(1),
        position: Position { x: 4, y: 3 },
        halite: 50,
    });
    let st = State::from(&game);
    assert_eq!(st.enemy_value(Position { x: 3, y: 3 }), Some(75));
    assert_eq!(st.enemy_value(Position { x: 0, y: 0 }), None);
}

#[test]
fn nearest_dropoff_prefers_the_closer_site() {
    let game = uniform_game(8, 8, 0);
    let mut st = State::from(&game);
    assert_eq!(st.nearest_dropoff(Position { x: 3, y: 0 }), Position { x: 0, y: 0 });
    // Convert a unit into an outpost and the nearer site wins.
    st.add_ship(&ship(2, 5, 4, 0));
    st.make_dropoff(ShipId(2));
    assert_eq!(st.nearest_dropoff(Position { x: 5, y: 5 }), Position { x: 5, y: 4 });
}

#[test]
fn div_ceil_rounds_up() {
    assert_eq!(halite_engine::state::div_ceil(100, 4), 25);
    assert_eq!(halite_engine::state::div_ceil(101, 4), 26);
    assert_eq!(halite_engine::state::div_ceil(0, 4), 0);
    assert_eq!(halite_engine::state::div_ceil(1, 1), 1);
}

#[test]
fn replay_turn_applies_legal_steps_and_skips_the_rest() {
    let game = uniform_game(5, 5, 100);
    let mut st = State::from(&game);
    st.add_ship(&ship(1, 2, 2, 50));
    st.add_ship(&ship(2, 4, 4, 0));
    let acts = vec![
        // Legal: ship 1 can afford the 10-cost departure.
        Action::new(ShipId(1), Direction::East, false, false, false),
        // Illegal: ship 2 cannot afford to move.
        Action::new(ShipId(2), Direction::North, false, false, false),
        // Unknown unit: skipped.
        Action::new(ShipId(9), Direction::Still, false, false, false),
        // Legal: ship 2 mines instead.
        Action::new(ShipId(2), Direction::Still, false, false, false),
    ];
    let flags = st.replay_turn(&acts);
    assert_eq!(flags.len(), 4);
    assert!(flags[0].0);
    assert_eq!(flags[0].1, Position { x: 2, y: 2 });
    assert!(!flags[1].0);
    assert!(!flags[2].0);
    assert!(flags[3].0);
    assert_eq!(flags[3].1, Position { x: 4, y: 4 });
    assert_eq!(st.ship(ShipId(1)).0, Position { x: 3, y: 2 });
    assert_eq!(st.ship(ShipId(1)).1, 40);
    assert_eq!(st.ship(ShipId(2)).1, 25);
}
