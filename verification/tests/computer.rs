use rand::rngs::StdRng;
use rand::SeedableRng;
use toot_otto::chip::{ChipType, State};
use toot_otto::dummy_grid::DummyGrid;
use toot_otto::game::Game;
use toot_otto::search::{decide, merge_high, merge_low, pick_at};

fn against_computer(depth: u32) -> Game {
    Game::new(6, 7, true, "Ann".to_string(), "Ben".to_string(), depth)
}

fn chips_on(grid: &DummyGrid) -> usize {
    let mut n = 0;
    for r in 0..grid.num_rows {
        for c in 0..grid.num_cols {
            if grid.get(r, c) != 0 {
                n += 1;
            }
        }
    }
    n
}

#[test]
fn evaluation_of_a_single_chip() {
    let game = against_computer(2);
    let mut state = DummyGrid::new(6, 7);
    assert_eq!(game.ai_check_state(&state), (0, 0));
    state.set(5, 0, 1);
    assert_eq!(game.ai_check_state(&state), (0, -3));
    let mut other = DummyGrid::new(6, 7);
    other.set(5, 0, -1);
    assert_eq!(game.ai_check_state(&other), (0, 3));
}

#[test]
fn evaluation_cubes_the_window_weights() {
    let game = against_computer(2);
    let mut state = DummyGrid::new(1, 4);
    state.set(0, 1, 1);
    state.set(0, 2, 1);
    // Windows from the first cell: right has weight 2, cubed 8. From the second cell:
    // right 0, the three others -1 each. From the third cell: all four -1.
    assert_eq!(game.ai_check_state(&state), (0, 8 - 3 - 4));
}

#[test]
fn evaluation_signals_finished_lines() {
    let game = against_computer(2);
    let mut otto = DummyGrid::new(6, 7);
    otto.set(5, 0, -1);
    otto.set(5, 1, 1);
    otto.set(5, 2, 1);
    otto.set(5, 3, -1);
    assert_eq!(game.ai_check_state(&otto).0, 4);
    let mut toot = DummyGrid::new(6, 7);
    toot.set(5, 0, 1);
    toot.set(5, 1, -1);
    toot.set(5, 2, -1);
    toot.set(5, 3, 1);
    assert_eq!(game.ai_check_state(&toot).0, -4);
}

#[test]
fn fill_map_drops_a_chip_into_a_copy() {
    let game = against_computer(2);
    let mut state = DummyGrid::new(3, 2);
    state.insert_chip(0, 1).unwrap();
    let next = game.ai_fill_map(&state, 0, -1).unwrap();
    assert_eq!(next.get(1, 0), -1);
    assert_eq!(next.get(2, 0), 1);
    assert_eq!(state.get(1, 0), 0);
    let top = game.ai_fill_map(&next, 0, 1).unwrap();
    assert_eq!(top.get(0, 0), 1);
    assert!(game.ai_fill_map(&top, 0, 1).is_none());
    assert!(game.ai_fill_map(&state, 2, 1).is_none());
    let empty = game.ai_fill_map(&state, 1, 1).unwrap();
    assert_eq!(empty.get(2, 1), 1);
}

#[test]
fn value_at_the_depth_limit_is_the_signed_chain_score_less_the_squared_depth() {
    let game = against_computer(2);
    let mut rng = StdRng::seed_from_u64(1);
    let mut state = DummyGrid::new(6, 7);
    state.set(5, 0, 1);
    let wide = 100000000007;
    assert_eq!(game.ai_value(&state, 2, -wide, wide, 1, &mut rng), (-7, -1));
    assert_eq!(game.ai_value(&state, 2, -wide, wide, -1, &mut rng), (-1, -1));
}

#[test]
fn finished_lines_score_by_depth() {
    let game = against_computer(5);
    let mut rng = StdRng::seed_from_u64(1);
    let wide = 100000000007;
    let mut otto = DummyGrid::new(6, 7);
    otto.set(5, 0, -1);
    otto.set(5, 1, 1);
    otto.set(5, 2, 1);
    otto.set(5, 3, -1);
    assert_eq!(game.ai_value(&otto, 1, -wide, wide, 1, &mut rng), (999998, -1));
    assert_eq!(game.ai_value(&otto, 3, -wide, wide, -1, &mut rng), (999990, -1));
    let mut toot = DummyGrid::new(6, 7);
    toot.set(5, 0, 1);
    toot.set(5, 1, -1);
    toot.set(5, 2, -1);
    toot.set(5, 3, 1);
    assert_eq!(game.ai_value(&toot, 2, -wide, wide, 1, &mut rng), (-999995, -1));
    assert_eq!(game.ai_value(&toot, 5, -wide, wide, 1, &mut rng), (-999974, -1));
}

#[test]
fn pick_returns_one_of_the_choices() {
    let mut rng = StdRng::seed_from_u64(3);
    assert_eq!(Game::pick(vec![4], &mut rng), 4);
    for _ in 0..20 {
        let col = Game::pick(vec![1, 5, 6], &mut rng);
        assert!(col == 1 || col == 5 || col == 6);
    }
}

#[test]
fn search_without_a_free_column_has_no_move() {
    let game = Game::new(1, 1, true, "Ann".to_string(), "Ben".to_string(), 2);
    let mut rng = StdRng::seed_from_u64(5);
    let mut state = DummyGrid::new(1, 1);
    state.set(0, 0, 1);
    let wide = 100000000007;
    assert_eq!(game.ai_max_state(&state, 0, -wide, wide, 1, &mut rng), (-wide, -1));
    assert_eq!(game.ai_min_state(&state, 1, -wide, wide, 1, &mut rng), (wide, -1));
}

#[test]
fn computer_completes_its_line() {
    let mut game = against_computer(1);
    game.dummy_grid.set(5, 0, -1);
    game.dummy_grid.set(5, 1, 1);
    game.dummy_grid.set(5, 2, 1);
    for seed in 0..5 {
        let mut rng = StdRng::seed_from_u64(seed);
        let (chip, col) = game.ai_move_val(&mut rng);
        assert!(chip == ChipType::O);
        assert_eq!(col, 3);
    }
    let mut rng = StdRng::seed_from_u64(9);
    let wide = 100000000007;
    assert_eq!(game.ai_max_state(&game.dummy_grid, 0, -wide, wide, -1, &mut rng), (999999, 3));
}

#[test]
fn narrow_window_and_wide_window_agree_inside_the_window() {
    let mut game = Game::new(4, 4, true, "Ann".to_string(), "Ben".to_string(), 3);
    game.dummy_grid.insert_chip(0, 1).unwrap();
    game.dummy_grid.insert_chip(1, -1).unwrap();
    game.dummy_grid.insert_chip(1, 1).unwrap();
    game.dummy_grid.insert_chip(3, -1).unwrap();
    let wide = 100000000007;
    for chip in [1, -1] {
        let mut rng = StdRng::seed_from_u64(11);
        let (full, _) = game.ai_max_state(&game.dummy_grid, 0, -wide, wide, chip, &mut rng);
        let mut other = StdRng::seed_from_u64(12);
        let (again, _) = game.ai_max_state(&game.dummy_grid, 0, -wide, wide, chip, &mut other);
        assert_eq!(full, again);
        let (narrow, _) =
            game.ai_max_state(&game.dummy_grid, 0, full - 1, full + 1, chip, &mut rng);
        assert_eq!(narrow, full);
        let (low, _) = game.ai_max_state(&game.dummy_grid, 0, -wide, full - 1, chip, &mut rng);
        assert!(low >= full);
        let (high, _) = game.ai_max_state(&game.dummy_grid, 0, full + 1, wide, chip, &mut rng);
        assert!(high <= full);
    }
}

#[test]
fn same_seed_same_move() {
    let mut game = against_computer(2);
    game.make_move(ChipType::T, 3).unwrap();
    for seed in [0u64, 1, 42] {
        let mut first = StdRng::seed_from_u64(seed);
        let mut second = StdRng::seed_from_u64(seed);
        let a = game.ai_move_val(&mut first);
        let b = game.ai_move_val(&mut second);
        assert!(a.0 == b.0);
        assert_eq!(a.1, b.1);
    }
}

#[test]
fn first_move_of_the_computer_on_an_empty_board() {
    for depth in 1..3 {
        let mut game = against_computer(depth);
        let mut rng = StdRng::seed_from_u64(7);
        let (chip, col) = game.ai_move_val(&mut rng);
        assert!(col <= 6);
        assert!(chip == ChipType::T || chip == ChipType::O);
        let (row, index, _) = game.make_move(chip, col).unwrap();
        assert_eq!(row, 5);
        assert_eq!(index, 0);
        assert_eq!(chips_on(&game.dummy_grid), 1);
    }
}

#[test]
fn computer_move_is_applied_to_both_boards() {
    let mut game = against_computer(2);
    let mut rng = StdRng::seed_from_u64(21);
    game.make_move(ChipType::T, 0).unwrap();
    let (row, index, col, value) = game.ai_make_move(&mut rng).unwrap();
    assert_eq!(index, 1);
    assert!(col <= 6);
    assert!(value == 1 || value == -1);
    assert_eq!(game.dummy_grid.get(row, col), value);
    assert_eq!(game.grid.get(row, col), -1);
    assert_eq!(game.p_move, 2);
    assert_eq!(chips_on(&game.dummy_grid), 2);
}

#[test]
fn computer_does_not_move_on_a_full_board_or_after_the_end() {
    let mut game = Game::new(1, 2, true, "Ann".to_string(), "Ben".to_string(), 2);
    let mut rng = StdRng::seed_from_u64(2);
    game.make_move(ChipType::T, 0).unwrap();
    let (row, _, col, _) = game.ai_make_move(&mut rng).unwrap();
    assert_eq!((row, col), (0, 1));
    assert!(game.state == State::Done);
    assert_eq!(game.winner, "Draw");
    assert_eq!(game.ai_make_move(&mut rng), Err(()));
    game.state = State::Running;
    assert_eq!(game.ai_make_move(&mut rng), Err(()));
    assert_eq!(game.p_move, 2);
}

const WIDE: i64 = 100000000007;

fn plain_value(game: &Game, state: &DummyGrid, depth: u32, chip: i64) -> i64 {
    let (win, chain) = game.ai_check_state(state);
    let d = depth as i64;
    if depth >= game.max_ai_depth || win != 0 {
        return if win == 4 {
            999999 - d * d
        } else if win == -4 {
            -(999999 - d * d)
        } else {
            chain * chip - d * d
        };
    }
    if depth % 2 == 0 {
        plain_min(game, state, depth + 1, 1).min(plain_min(game, state, depth + 1, -1))
    } else {
        plain_max(game, state, depth + 1, 1).max(plain_max(game, state, depth + 1, -1))
    }
}

fn plain_max(game: &Game, state: &DummyGrid, depth: u32, chip: i64) -> i64 {
    let mut best = -WIDE;
    for col in 0..state.num_cols {
        if let Some(next) = game.ai_fill_map(state, col, chip) {
            best = best.max(plain_value(game, &next, depth, chip));
        }
    }
    best
}

fn plain_min(game: &Game, state: &DummyGrid, depth: u32, chip: i64) -> i64 {
    let mut best = WIDE;
    for col in 0..state.num_cols {
        if let Some(next) = game.ai_fill_map(state, col, -chip) {
            best = best.min(plain_value(game, &next, depth, chip));
        }
    }
    best
}

#[test]
fn search_with_cuts_finds_the_value_of_full_exploration() {
    for depth in 0..4 {
        let mut game = Game::new(4, 4, true, "Ann".to_string(), "Ben".to_string(), depth);
        game.make_move(ChipType::T, 1).unwrap();
        game.make_move(ChipType::O, 2).unwrap();
        game.make_move(ChipType::O, 1).unwrap();
        for chip in [1, -1] {
            let mut rng = StdRng::seed_from_u64(depth as u64);
            let (score, col) = game.ai_max_state(&game.dummy_grid, 0, -WIDE, WIDE, chip, &mut rng);
            assert_eq!(score, plain_max(&game, &game.dummy_grid, 0, chip));
            let next = game.ai_fill_map(&game.dummy_grid, col as usize, chip).unwrap();
            assert_eq!(plain_value(&game, &next, 0, chip), score);
            let (low, _) = game.ai_min_state(&game.dummy_grid, 1, -WIDE, WIDE, chip, &mut rng);
            assert_eq!(low, plain_min(&game, &game.dummy_grid, 1, chip));
        }
    }
}

#[test]
fn computer_is_second_to_move() {
    let mut game = against_computer(1);
    assert!(!game.computer_to_move());
    game.make_move(ChipType::T, 0).unwrap();
    assert!(game.computer_to_move());
    let mut two = Game::new(6, 7, false, "Ann".to_string(), "Ben".to_string(), 1);
    two.make_move(ChipType::T, 0).unwrap();
    assert!(!two.computer_to_move());
}

#[test]
fn merges_take_the_better_score_and_the_toss_on_a_tie() {
    assert_eq!(merge_low((3, 1), (5, 2), true), (3, 1));
    assert_eq!(merge_low((7, 1), (5, 2), true), (5, 2));
    assert_eq!(merge_low((5, 1), (5, 2), true), (5, 1));
    assert_eq!(merge_low((5, 1), (5, 2), false), (5, 2));
    assert_eq!(merge_high((3, 1), (5, 2), true), (5, 2));
    assert_eq!(merge_high((7, 1), (5, 2), false), (7, 1));
    assert_eq!(merge_high((5, 1), (5, 2), true), (5, 1));
    assert_eq!(merge_high((5, 1), (5, 2), false), (5, 2));
}

#[test]
fn root_decision_follows_scores_and_toss() {
    assert!(decide((9, 2), (4, 6), false) == (ChipType::T, 2));
    assert!(decide((1, 2), (4, 6), true) == (ChipType::O, 6));
    assert!(decide((4, 2), (4, 6), true) == (ChipType::T, 2));
    assert!(decide((4, 2), (4, 6), false) == (ChipType::O, 6));
    assert!(decide((-WIDE, -1), (-WIDE, -1), true) == (ChipType::T, usize::MAX));
}

#[test]
fn pick_at_reads_the_place() {
    let queue = vec![1, 5, 6];
    assert_eq!(pick_at(&queue, 0), 1);
    assert_eq!(pick_at(&queue, 2), 6);
}

#[test]
fn terminal_value_does_not_depend_on_the_window() {
    let game = against_computer(2);
    let mut rng = StdRng::seed_from_u64(4);
    let mut state = DummyGrid::new(6, 7);
    state.set(5, 0, 1);
    assert_eq!(game.ai_value(&state, 2, -100, -50, 1, &mut rng), (-7, -1));
    assert_eq!(game.ai_value(&state, 2, 10, 20, 1, &mut rng), (-7, -1));
    assert_eq!(game.ai_value(&state, 2, 20, 10, -1, &mut rng), (-1, -1));
}

#[test]
fn narrow_window_score_is_the_merge_of_the_two_scans() {
    let mut game = Game::new(4, 4, true, "Ann".to_string(), "Ben".to_string(), 3);
    game.make_move(ChipType::T, 1).unwrap();
    game.make_move(ChipType::O, 2).unwrap();
    for (alpha, beta) in [(-5, 5), (-WIDE, 0), (3, WIDE), (-40, -20)] {
        for seed in 0..3 {
            let mut rng = StdRng::seed_from_u64(seed);
            let (tv, _) = game.ai_min_state(&game.dummy_grid, 1, alpha, beta, 1, &mut rng);
            let (ov, _) = game.ai_min_state(&game.dummy_grid, 1, alpha, beta, -1, &mut rng);
            let (score, _) = game.ai_value(&game.dummy_grid, 0, alpha, beta, 1, &mut rng);
            assert_eq!(score, tv.min(ov));
            let (tv, _) = game.ai_max_state(&game.dummy_grid, 2, alpha, beta, 1, &mut rng);
            let (ov, _) = game.ai_max_state(&game.dummy_grid, 2, alpha, beta, -1, &mut rng);
            let (score, _) = game.ai_value(&game.dummy_grid, 1, alpha, beta, 1, &mut rng);
            assert_eq!(score, tv.max(ov));
        }
    }
}
