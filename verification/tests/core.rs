use astro_robots::changes::PosChange;
use astro_robots::game::{Action, Game, Mode, SolutionWalkthrough};
use astro_robots::state::{
    Direction, Invariants, MovementAttempt, Pos, Selection, State, StateError, Tile,
};

fn empty_layout(rows: usize, cols: usize) -> Vec<Tile> {
    vec![Tile::Empty; rows * cols]
}

fn set(tiles: &mut Vec<Tile>, cols: usize, x: usize, y: usize, tile: Tile) {
    tiles[y * cols + x] = tile;
}

fn pos(x: usize, y: usize) -> Pos {
    Pos { x, y }
}

#[test]
fn construction_rejects_two_astros() {
    let mut tiles = empty_layout(4, 4);
    set(&mut tiles, 4, 0, 0, Tile::Astro);
    set(&mut tiles, 4, 2, 2, Tile::Astro);
    set(&mut tiles, 4, 3, 3, Tile::Goal);
    let r = State::from_grid(4, 4, &tiles);
    assert_eq!(r, Err(StateError::MoreThanOnePlayer));
    assert_eq!(StateError::MoreThanOnePlayer.message(), "more than one player");
}

#[test]
fn construction_rejects_zero_goals() {
    let mut tiles = empty_layout(4, 4);
    set(&mut tiles, 4, 0, 0, Tile::Astro);
    set(&mut tiles, 4, 1, 1, Tile::Robot);
    let r = State::from_grid(4, 4, &tiles);
    assert_eq!(r, Err(StateError::NoGoal));
    assert_eq!(StateError::NoGoal.message(), "no goal");
}

#[test]
fn construction_rejects_no_player() {
    let mut tiles = empty_layout(4, 4);
    set(&mut tiles, 4, 3, 3, Tile::Goal);
    let r = State::from_grid(4, 4, &tiles);
    assert_eq!(r, Err(StateError::NoPlayer));
    assert_eq!(StateError::NoPlayer.message(), "no player");
}

#[test]
fn construction_rejects_two_goals() {
    let mut tiles = empty_layout(4, 4);
    set(&mut tiles, 4, 0, 0, Tile::Astro);
    set(&mut tiles, 4, 1, 0, Tile::Goal);
    set(&mut tiles, 4, 2, 0, Tile::Goal);
    let r = State::from_grid(4, 4, &tiles);
    assert_eq!(r, Err(StateError::MoreThanOneGoal));
    assert_eq!(StateError::MoreThanOneGoal.message(), "more than one goal");
}

#[test]
fn construction_reads_tiles() {
    let mut tiles = empty_layout(4, 5);
    set(&mut tiles, 5, 1, 1, Tile::Astro);
    set(&mut tiles, 5, 2, 2, Tile::Robot);
    set(&mut tiles, 5, 4, 0, Tile::Robot);
    set(&mut tiles, 5, 3, 3, Tile::Goal);
    let s = State::from_grid(4, 5, &tiles).expect("layout is well-formed");
    assert_eq!(s.dims(), (4, 5));
    assert_eq!(s.num_robots(), 2);
    assert_eq!(s.tile_at(pos(1, 1)), Tile::Astro);
    assert_eq!(s.tile_at(pos(2, 2)), Tile::Robot);
    assert_eq!(s.tile_at(pos(4, 0)), Tile::Robot);
    assert_eq!(s.tile_at(pos(3, 3)), Tile::Goal);
    assert_eq!(s.tile_at(pos(0, 0)), Tile::Empty);
    assert_eq!(s.pos_of(Selection::Astro), pos(1, 1));
    // robots are numbered in column-major scanning order: by x, then y
    assert_eq!(s.pos_of(Selection::Robot(0)), pos(2, 2));
    assert_eq!(s.pos_of(Selection::Robot(1)), pos(4, 0));
    assert!(s.is_well_formed());
    assert!(!s.is_at_goal());
}

#[test]
fn move_at_edge_fails() {
    let mut tiles = empty_layout(4, 4);
    set(&mut tiles, 4, 0, 0, Tile::Astro);
    set(&mut tiles, 4, 3, 3, Tile::Goal);
    let s = State::from_grid(4, 4, &tiles).unwrap();
    assert_eq!(s.move_toward(pos(0, 0), Direction::Up), MovementAttempt::Failure);
    assert_eq!(s.move_toward(pos(0, 0), Direction::Left), MovementAttempt::Failure);
}

#[test]
fn move_blocked_by_adjacent_actor_fails() {
    let mut tiles = empty_layout(4, 4);
    set(&mut tiles, 4, 1, 1, Tile::Astro);
    set(&mut tiles, 4, 2, 1, Tile::Robot);
    set(&mut tiles, 4, 3, 3, Tile::Goal);
    let s = State::from_grid(4, 4, &tiles).unwrap();
    assert_eq!(s.move_toward(pos(1, 1), Direction::Right), MovementAttempt::Failure);
    // the robot, adjacent to the astronaut on its left, cannot move left
    assert_eq!(s.move_toward(pos(2, 1), Direction::Left), MovementAttempt::Failure);
}

#[test]
fn move_slides_until_blocked() {
    let mut tiles = empty_layout(5, 5);
    set(&mut tiles, 5, 0, 0, Tile::Astro);
    set(&mut tiles, 5, 3, 0, Tile::Robot);
    set(&mut tiles, 5, 4, 4, Tile::Goal);
    let s = State::from_grid(5, 5, &tiles).unwrap();
    // the slide stops on the last free cell before the robot
    assert_eq!(s.move_toward(pos(0, 0), Direction::Right), MovementAttempt::Success(pos(2, 0)));
}

#[test]
fn move_slides_to_the_edge() {
    let mut tiles = empty_layout(4, 4);
    set(&mut tiles, 4, 0, 0, Tile::Astro);
    set(&mut tiles, 4, 3, 3, Tile::Goal);
    let s = State::from_grid(4, 4, &tiles).unwrap();
    assert_eq!(s.move_toward(pos(0, 0), Direction::Right), MovementAttempt::Success(pos(3, 0)));
    assert_eq!(s.move_toward(pos(0, 0), Direction::Down), MovementAttempt::Success(pos(0, 3)));
}

#[test]
fn goal_does_not_stop_a_slide() {
    let mut tiles = empty_layout(4, 4);
    set(&mut tiles, 4, 0, 0, Tile::Astro);
    set(&mut tiles, 4, 1, 0, Tile::Goal);
    let s = State::from_grid(4, 4, &tiles).unwrap();
    // the goal cell behaves like an empty cell: the slide passes over it
    assert_eq!(s.move_toward(pos(0, 0), Direction::Right), MovementAttempt::Success(pos(3, 0)));
}

#[test]
fn tile_query_is_pure() {
    let mut tiles = empty_layout(4, 4);
    set(&mut tiles, 4, 1, 2, Tile::Astro);
    set(&mut tiles, 4, 3, 0, Tile::Goal);
    let s = State::from_grid(4, 4, &tiles).unwrap();
    for y in 0..4 {
        for x in 0..4 {
            assert_eq!(s.tile_at(pos(x, y)), s.tile_at(pos(x, y)));
        }
    }
}

#[test]
fn solver_on_state_already_at_goal() {
    let s = State {
        astro: pos(1, 1),
        robots: Vec::new(),
        invariants: Invariants { goal: pos(1, 1), rows: 4, cols: 4 },
    };
    let solution = s.solve_from_here().expect("a state at the goal is solved");
    assert_eq!(solution.len(), 1);
    assert_eq!(solution[0], s);
}

#[test]
fn solver_solves_straight_slide_in_one_move() {
    let mut tiles = empty_layout(4, 4);
    set(&mut tiles, 4, 0, 0, Tile::Astro);
    set(&mut tiles, 4, 3, 0, Tile::Goal);
    let s = State::from_grid(4, 4, &tiles).unwrap();
    let solution = s.solve_from_here().expect("one slide right reaches the goal");
    assert_eq!(solution.len(), 2);
    assert_eq!(solution[0], s);
    assert!(solution[1].is_at_goal());
    assert_eq!(solution[1].pos_of(Selection::Astro), pos(3, 0));
}

#[test]
fn solver_finds_two_move_path() {
    let mut tiles = empty_layout(4, 4);
    set(&mut tiles, 4, 0, 0, Tile::Astro);
    set(&mut tiles, 4, 3, 3, Tile::Goal);
    let s = State::from_grid(4, 4, &tiles).unwrap();
    // slide right to (3, 0), then down to the goal at (3, 3)
    let solution = s.solve_from_here().expect("two slides reach the corner");
    assert_eq!(solution.len(), 3);
    assert!(solution[2].is_at_goal());
}

#[test]
fn solver_reports_unreachable_goal() {
    let mut tiles = empty_layout(4, 4);
    set(&mut tiles, 4, 1, 1, Tile::Astro);
    set(&mut tiles, 4, 2, 2, Tile::Goal);
    let s = State::from_grid(4, 4, &tiles).unwrap();
    // with no robots every slide ends on the board edge, so an interior
    // goal can never be reached
    assert!(s.solve_from_here().is_none());
    assert_eq!(Game::new(s).unwrap_err(), StateError::Unsolvable);
}

#[test]
fn generator_yields_solvable_nontrivial_puzzles() {
    let s = State::new_randomized(4, 4).expect("the budget finds a puzzle on a 4 by 4 board");
    assert!(s.is_well_formed());
    assert_eq!(s.dims(), (4, 4));
    assert!(s.num_robots() < 4);
    // the actors and the goal occupy pairwise distinct cells
    assert!(!s.is_at_goal());
    let mut cells = vec![s.pos_of(Selection::Astro)];
    for n in 0..s.num_robots() {
        cells.push(s.pos_of(Selection::Robot(n)));
    }
    for i in 0..cells.len() {
        for j in 0..i {
            assert_ne!(cells[i], cells[j]);
        }
    }
    let solution = s.solve_from_here().expect("a generated puzzle is solvable");
    assert!(solution.len() >= 5);
}

#[test]
fn generator_respects_dimensions() {
    let s = State::new_randomized(5, 6).expect("the budget finds a puzzle on a 5 by 6 board");
    assert_eq!(s.dims(), (5, 6));
    assert!(s.solve_from_here().is_some());
}

#[test]
fn pos_change_reports_astro_move() {
    let inv = Invariants { goal: pos(0, 3), rows: 4, cols: 4 };
    let before = State { astro: pos(1, 1), robots: vec![pos(0, 0)], invariants: inv };
    let after = State { astro: pos(1, 3), robots: vec![pos(0, 0)], invariants: inv };
    let change = PosChange::try_from(&before, &after).expect("the astronaut moved");
    assert_eq!(change, PosChange(pos(1, 1), pos(1, 3)));
}

#[test]
fn pos_change_reports_first_differing_robot() {
    let inv = Invariants { goal: pos(0, 3), rows: 4, cols: 4 };
    let before = State { astro: pos(1, 1), robots: vec![pos(0, 0), pos(2, 2)], invariants: inv };
    let after = State { astro: pos(1, 1), robots: vec![pos(0, 0), pos(2, 0)], invariants: inv };
    let change = PosChange::try_from(&before, &after).expect("a robot moved");
    assert_eq!(change, PosChange(pos(2, 2), pos(2, 0)));
}

#[test]
fn pos_change_rejects_mismatched_states() {
    let inv_a = Invariants { goal: pos(0, 3), rows: 4, cols: 4 };
    let inv_b = Invariants { goal: pos(0, 2), rows: 4, cols: 4 };
    let s = State { astro: pos(1, 1), robots: vec![pos(0, 0)], invariants: inv_a };
    let t = State { astro: pos(1, 2), robots: vec![pos(0, 0)], invariants: inv_b };
    assert_eq!(PosChange::try_from(&s, &t), Err(StateError::InvariantsDiffer));

    let u = State { astro: pos(1, 2), robots: vec![], invariants: inv_a };
    assert_eq!(PosChange::try_from(&s, &u), Err(StateError::RobotCountDiffers));

    assert_eq!(PosChange::try_from(&s, &s), Err(StateError::StatesEqual));
    assert_eq!(StateError::StatesEqual.message(), "start and end states are equal");
}

#[test]
fn pos_changes_walks_the_whole_path() {
    let inv = Invariants { goal: pos(3, 0), rows: 4, cols: 4 };
    let a = State { astro: pos(0, 0), robots: vec![pos(3, 1)], invariants: inv };
    let b = State { astro: pos(3, 0), robots: vec![pos(3, 1)], invariants: inv };
    let c = State { astro: pos(3, 0), robots: vec![pos(0, 1)], invariants: inv };
    let states = vec![a, b, c];
    let changes = State::pos_changes(&states).expect("every step moved one actor");
    assert_eq!(changes.len(), 2);
    assert_eq!(changes[0], PosChange(pos(0, 0), pos(3, 0)));
    assert_eq!(changes[1], PosChange(pos(3, 1), pos(0, 1)));
}

#[test]
fn walkthrough_cursor_saturates() {
    let inv = Invariants { goal: pos(1, 1), rows: 4, cols: 4 };
    let a = State { astro: pos(0, 0), robots: Vec::new(), invariants: inv };
    let b = State { astro: pos(1, 1), robots: Vec::new(), invariants: inv };
    let mut walk = SolutionWalkthrough::new(vec![a.clone(), b.clone()]);
    assert_eq!(walk.len(), 2);
    assert_eq!(walk.state(), &a);
    walk.increment();
    assert_eq!(walk.state(), &b);
    walk.increment();
    assert_eq!(walk.state(), &b);
    walk.decrement();
    assert_eq!(walk.state(), &a);
    walk.decrement();
    assert_eq!(walk.state(), &a);
}

#[test]
fn game_plays_to_the_goal() {
    let mut tiles = empty_layout(4, 4);
    set(&mut tiles, 4, 0, 0, Tile::Astro);
    set(&mut tiles, 4, 3, 0, Tile::Goal);
    let s = State::from_grid(4, 4, &tiles).unwrap();
    let mut game = Game::new(s).expect("the puzzle is solvable");
    assert_eq!(game.mode(), Mode::Playable);
    assert!(game.is_well_formed());

    let action = game.move_toward(Direction::Right);
    assert_eq!(action, Action::Movement(MovementAttempt::Success(pos(3, 0))));
    game.move_selection_to(pos(3, 0));
    assert_eq!(game.mode(), Mode::GameOver);
    assert!(game.state().is_at_goal());

    game.undo();
    assert_eq!(game.state().pos_of(Selection::Astro), pos(0, 0));

    game.restart();
    assert_eq!(game.mode(), Mode::Playable);
    assert_eq!(game.state().pos_of(Selection::Astro), pos(0, 0));
}

#[test]
fn selection_cycles_through_actors() {
    let mut tiles = empty_layout(4, 4);
    set(&mut tiles, 4, 0, 0, Tile::Astro);
    set(&mut tiles, 4, 3, 0, Tile::Goal);
    set(&mut tiles, 4, 1, 2, Tile::Robot);
    set(&mut tiles, 4, 2, 2, Tile::Robot);
    let s = State::from_grid(4, 4, &tiles).unwrap();
    let mut game = Game::new(s).expect("the puzzle is solvable");
    assert_eq!(game.selected_pos(), game.state().pos_of(Selection::Astro));
    game.select_next_character();
    assert_eq!(game.selected_pos(), game.state().pos_of(Selection::Robot(0)));
    game.select_next_character();
    assert_eq!(game.selected_pos(), game.state().pos_of(Selection::Robot(1)));
    game.select_next_character();
    assert_eq!(game.selected_pos(), game.state().pos_of(Selection::Astro));
    game.select_prev_character();
    assert_eq!(game.selected_pos(), game.state().pos_of(Selection::Robot(1)));
}

#[test]
fn toggle_mode_flips_between_play_and_walkthrough() {
    let mut tiles = empty_layout(4, 4);
    set(&mut tiles, 4, 0, 0, Tile::Astro);
    set(&mut tiles, 4, 3, 0, Tile::Goal);
    let s = State::from_grid(4, 4, &tiles).unwrap();
    let mut game = Game::new(s).unwrap();
    game.toggle_mode();
    assert_eq!(game.mode(), Mode::Walkthrough);
    game.toggle_mode();
    assert_eq!(game.mode(), Mode::Playable);
}

#[test]
fn walkthrough_of_a_solved_game_diffs_cleanly() {
    let mut tiles = empty_layout(4, 4);
    set(&mut tiles, 4, 0, 0, Tile::Astro);
    set(&mut tiles, 4, 3, 3, Tile::Goal);
    let s = State::from_grid(4, 4, &tiles).unwrap();
    let game = Game::new(s).unwrap();
    let changes =
        State::pos_changes(&game.walkthrough.solution).expect("solver paths diff cleanly");
    assert_eq!(changes.len(), game.walkthrough.solution.len() - 1);
}

#[test]
fn moving_a_robot_by_selection() {
    let mut tiles = empty_layout(4, 4);
    set(&mut tiles, 4, 0, 0, Tile::Astro);
    set(&mut tiles, 4, 1, 1, Tile::Robot);
    set(&mut tiles, 4, 3, 3, Tile::Goal);
    let mut s = State::from_grid(4, 4, &tiles).unwrap();
    let robot_pos = s.pos_of(Selection::Robot(0));
    assert_eq!(robot_pos, pos(1, 1));
    match s.move_toward(robot_pos, Direction::Down) {
        MovementAttempt::Success(landing) => {
            assert_eq!(landing, pos(1, 3));
            *s.pos_of_mut(Selection::Robot(0)) = landing;
        }
        MovementAttempt::Failure => panic!("the robot's column is free"),
    }
    assert_eq!(s.tile_at(pos(1, 3)), Tile::Robot);
    assert_eq!(s.tile_at(pos(1, 1)), Tile::Empty);
}

#[test]
fn path_scans_toward_the_edge() {
    let mut tiles = empty_layout(4, 4);
    set(&mut tiles, 4, 1, 1, Tile::Astro);
    set(&mut tiles, 4, 3, 3, Tile::Goal);
    let s = State::from_grid(4, 4, &tiles).unwrap();
    assert_eq!(s.positions_in_path(pos(1, 1), Direction::Right), vec![pos(2, 1), pos(3, 1)]);
    assert_eq!(s.positions_in_path(pos(1, 1), Direction::Up), vec![pos(1, 0)]);
    assert_eq!(s.positions_in_path(pos(1, 1), Direction::Left), vec![pos(0, 1)]);
    assert_eq!(s.positions_in_path(pos(1, 1), Direction::Down), vec![pos(1, 2), pos(1, 3)]);
    assert_eq!(s.positions_in_path(pos(0, 0), Direction::Up), Vec::<Pos>::new());
}

#[test]
fn tile_symbols() {
    assert_eq!(Tile::Empty.symbol(), '.');
    assert_eq!(Tile::Astro.symbol(), 'A');
    assert_eq!(Tile::Robot.symbol(), 'R');
    assert_eq!(Tile::Goal.symbol(), 'X');
}

#[test]
fn duplicate_copies_every_field() {
    let inv = Invariants { goal: pos(3, 3), rows: 4, cols: 4 };
    let s = State { astro: pos(0, 0), robots: vec![pos(1, 1), pos(2, 2)], invariants: inv };
    let copy = s.duplicate();
    assert_eq!(copy, s);
}
