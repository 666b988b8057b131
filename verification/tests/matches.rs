use toot_otto::chip::{ChipType, State};
use toot_otto::game::Game;

fn fresh(rows: usize, cols: usize) -> Game {
    Game::new(rows, cols, false, "Ann".to_string(), "Ben".to_string(), 2)
}

#[test]
fn new_match_is_running_and_empty() {
    let game = fresh(6, 7);
    assert!(game.state == State::Running);
    assert_eq!(game.p1, "Ann");
    assert_eq!(game.p2, "Ben");
    assert_eq!(game.winner, "");
    assert_eq!(game.p_move, 0);
    assert_eq!(game.max_ai_depth, 2);
    assert!(!game.with_ai);
    assert_eq!(game.check_win(), None);
}

#[test]
fn computer_takes_the_second_seat() {
    let game = Game::new(6, 7, true, "Ann".to_string(), "Ben".to_string(), 3);
    assert!(game.with_ai);
    assert_eq!(game.p2, "Computer");
    assert_eq!(game.p1, "Ann");
}

#[test]
fn start_game_sets_running() {
    let mut game = fresh(6, 7);
    game.state = State::NonStarted;
    game.start_game();
    assert!(game.state == State::Running);
}

#[test]
fn start_game_clears_boards_counter_and_winner() {
    let mut game = fresh(6, 7);
    game.make_move(ChipType::T, 0).unwrap();
    game.make_move(ChipType::O, 1).unwrap();
    game.make_move(ChipType::O, 2).unwrap();
    game.make_move(ChipType::T, 3).unwrap();
    assert!(game.state == State::Done);
    assert_eq!(game.winner, "Ann");
    game.start_game();
    assert!(game.state == State::Running);
    assert_eq!(game.p_move, 0);
    assert_eq!(game.winner, "");
    assert_eq!(game.p1, "Ann");
    assert_eq!(game.p2, "Ben");
    assert_eq!(game.max_ai_depth, 2);
    assert_eq!((game.grid.num_rows, game.grid.num_cols), (6, 7));
    assert_eq!((game.dummy_grid.num_rows, game.dummy_grid.num_cols), (6, 7));
    for r in 0..6 {
        for c in 0..7 {
            assert_eq!(game.grid.get(r, c), 0);
            assert_eq!(game.dummy_grid.get(r, c), 0);
        }
    }
    assert_eq!(game.check_win(), None);
    assert_eq!(game.make_move(ChipType::O, 3), Ok((5, 0, -1)));
    assert_eq!(game.grid.get(5, 3), 1);
}

#[test]
fn markers_alternate_and_symbols_map() {
    let mut game = fresh(6, 7);
    assert_eq!(game.player_move_translate(), 1);
    assert_eq!(game.player_move_dummy_translate(ChipType::T), 1);
    assert_eq!(game.player_move_dummy_translate(ChipType::O), -1);
    assert_eq!(game.make_move(ChipType::O, 0), Ok((5, 0, -1)));
    assert_eq!(game.player_move_translate(), -1);
    assert_eq!(game.make_move(ChipType::T, 0), Ok((4, 1, 1)));
    assert_eq!(game.player_move_translate(), 1);
    assert_eq!(game.grid.get(5, 0), 1);
    assert_eq!(game.grid.get(4, 0), -1);
    assert_eq!(game.dummy_grid.get(5, 0), -1);
    assert_eq!(game.dummy_grid.get(4, 0), 1);
    assert_eq!(game.p_move, 2);
}

#[test]
fn toot_in_the_bottom_row_is_reported_at_once() {
    let mut game = fresh(6, 7);
    game.dummy_grid.set(5, 0, 1);
    game.dummy_grid.set(5, 1, -1);
    game.dummy_grid.set(5, 2, -1);
    game.dummy_grid.set(5, 3, 1);
    assert_eq!(game.check_win(), Some(1));
}

#[test]
fn otto_is_the_second_players_line() {
    let mut game = fresh(6, 7);
    game.dummy_grid.set(5, 3, -1);
    game.dummy_grid.set(5, 4, 1);
    game.dummy_grid.set(5, 5, 1);
    game.dummy_grid.set(5, 6, -1);
    assert_eq!(game.check_win(), Some(-1));
}

#[test]
fn lines_are_found_in_every_direction() {
    let mut down = fresh(6, 7);
    down.dummy_grid.set(2, 6, 1);
    down.dummy_grid.set(3, 6, -1);
    down.dummy_grid.set(4, 6, -1);
    down.dummy_grid.set(5, 6, 1);
    assert_eq!(down.check_win(), Some(1));
    let mut down_right = fresh(6, 7);
    down_right.dummy_grid.set(2, 3, -1);
    down_right.dummy_grid.set(3, 4, 1);
    down_right.dummy_grid.set(4, 5, 1);
    down_right.dummy_grid.set(5, 6, -1);
    assert_eq!(down_right.check_win(), Some(-1));
    let mut up_right = fresh(6, 7);
    up_right.dummy_grid.set(5, 0, 1);
    up_right.dummy_grid.set(4, 1, -1);
    up_right.dummy_grid.set(3, 2, -1);
    up_right.dummy_grid.set(2, 3, 1);
    assert_eq!(up_right.check_win(), Some(1));
}

#[test]
fn a_window_that_leaves_the_board_is_no_line() {
    let mut game = fresh(6, 7);
    game.dummy_grid.set(5, 4, 1);
    game.dummy_grid.set(5, 5, -1);
    game.dummy_grid.set(5, 6, -1);
    assert_eq!(game.check_win(), None);
    game.dummy_grid.set(5, 3, -1);
    assert_eq!(game.check_win(), None);
}

#[test]
fn first_line_in_scan_order_decides() {
    let mut game = fresh(6, 7);
    game.dummy_grid.set(0, 0, -1);
    game.dummy_grid.set(0, 1, 1);
    game.dummy_grid.set(0, 2, 1);
    game.dummy_grid.set(0, 3, -1);
    game.dummy_grid.set(5, 0, 1);
    game.dummy_grid.set(5, 1, -1);
    game.dummy_grid.set(5, 2, -1);
    game.dummy_grid.set(5, 3, 1);
    assert_eq!(game.check_win(), Some(-1));
    assert_eq!(game.ai_check_state(&game.dummy_grid).0, -4);
}

#[test]
fn fourth_move_can_win_and_ends_the_match() {
    let mut game = fresh(6, 7);
    assert_eq!(game.make_move(ChipType::T, 0), Ok((5, 0, 1)));
    assert!(game.state == State::Running);
    assert_eq!(game.make_move(ChipType::O, 1), Ok((5, 1, -1)));
    assert_eq!(game.make_move(ChipType::O, 2), Ok((5, 2, -1)));
    assert!(game.state == State::Running);
    assert_eq!(game.winner, "");
    assert_eq!(game.make_move(ChipType::T, 3), Ok((5, 3, 1)));
    assert!(game.state == State::Done);
    assert_eq!(game.winner, "Ann");
    assert_eq!(game.make_move(ChipType::T, 4), Err(()));
    assert_eq!(game.p_move, 4);
}

#[test]
fn otto_wins_for_the_second_player() {
    let mut game = fresh(6, 7);
    game.make_move(ChipType::O, 0).unwrap();
    game.make_move(ChipType::T, 1).unwrap();
    game.make_move(ChipType::T, 2).unwrap();
    game.make_move(ChipType::O, 3).unwrap();
    assert!(game.state == State::Done);
    assert_eq!(game.winner, "Ben");
}

#[test]
fn refused_move_changes_nothing() {
    let mut game = fresh(2, 2);
    game.make_move(ChipType::T, 0).unwrap();
    game.make_move(ChipType::T, 0).unwrap();
    let moves = game.p_move;
    assert_eq!(game.make_move(ChipType::O, 0), Err(()));
    assert_eq!(game.make_move(ChipType::O, 2), Err(()));
    assert_eq!(game.p_move, moves);
    assert!(game.state == State::Running);
    assert_eq!(game.player_move_translate(), 1);
}

#[test]
fn full_board_without_a_line_is_a_draw() {
    let mut game = fresh(2, 2);
    game.make_move(ChipType::T, 0).unwrap();
    game.make_move(ChipType::T, 0).unwrap();
    game.make_move(ChipType::T, 1).unwrap();
    assert!(game.state == State::Running);
    assert_eq!(game.check_win(), None);
    game.make_move(ChipType::O, 1).unwrap();
    assert!(game.state == State::Done);
    assert_eq!(game.winner, "Draw");
    assert_eq!(game.check_win(), None);
}

#[test]
fn a_line_on_the_last_cell_is_a_win_not_a_draw() {
    let mut game = fresh(1, 4);
    game.make_move(ChipType::T, 0).unwrap();
    game.make_move(ChipType::O, 1).unwrap();
    game.make_move(ChipType::O, 2).unwrap();
    assert_eq!(game.make_move(ChipType::T, 3), Ok((0, 3, 1)));
    assert!(game.state == State::Done);
    assert_eq!(game.winner, "Ann");
}

#[test]
fn scan_stays_silent_until_the_line_is_complete() {
    let mut game = fresh(6, 7);
    let moves = [
        (ChipType::T, 0),
        (ChipType::T, 0),
        (ChipType::O, 1),
        (ChipType::O, 2),
        (ChipType::O, 4),
        (ChipType::T, 3),
    ];
    for (k, (chip, col)) in moves.iter().enumerate() {
        assert_eq!(game.check_win(), None);
        game.make_move(*chip, *col).unwrap();
        if k < 5 {
            assert!(game.state == State::Running);
        }
    }
    assert_eq!(game.dummy_grid.get(5, 3), 1);
    assert!(game.state == State::Done);
    assert_eq!(game.winner, "Ann");
}
