use connect_four::{Game, PlayResult, Player};

fn win_line(r: PlayResult) -> Option<[u8; 4]> {
    match r {
        PlayResult::Win(l) => Some(l),
        _ => None,
    }
}

fn is_pass(r: &PlayResult) -> bool {
    matches!(r, PlayResult::Pass)
}

fn is_error(r: &PlayResult) -> bool {
    matches!(r, PlayResult::Error)
}

#[test]
fn vertical_four_in_column_three() {
    let mut game = Game::default();
    for _ in 0..3 {
        assert!(is_pass(&game.play_col(3)));
        assert!(is_pass(&game.play_col(4)));
    }
    let line = win_line(game.play_col(3)).expect("red should win");
    assert_eq!(line, [3, 3, 3, 0]);
}

#[test]
fn horizontal_four_reports_both_ends() {
    let mut game = Game::default();
    for col in 0..3 {
        assert!(is_pass(&game.play_col(col)));
        assert!(is_pass(&game.play_col(col)));
    }
    let line = win_line(game.play_col(3)).expect("red should win");
    assert_eq!(line, [0, 0, 3, 0]);
}

#[test]
fn horizontal_four_completed_in_the_middle() {
    let mut game = Game::default();
    for col in [0usize, 1, 3] {
        assert!(is_pass(&game.play_col(col)));
        assert!(is_pass(&game.play_col(col)));
    }
    let line = win_line(game.play_col(2)).expect("red should win");
    assert_eq!(line, [0, 0, 3, 0]);
}

#[test]
fn rising_diagonal_four() {
    let mut game = Game::default();
    // Red: (0,0) (1,1) (2,2) then (3,3); Yellow fills below.
    let moves = [0usize, 1, 1, 2, 2, 3, 2, 3, 3, 6];
    for col in moves {
        assert!(is_pass(&game.play_col(col)));
    }
    assert_eq!(game.player_turn(), Player::Red);
    let line = win_line(game.play_col(3)).expect("red should win");
    assert_eq!(line, [0, 0, 3, 3]);
}

#[test]
fn falling_diagonal_four() {
    let mut game = Game::default();
    // Red: (3,0) (2,1) (1,2) then (0,3).
    let moves = [3usize, 2, 2, 1, 1, 0, 1, 0, 0, 6];
    for col in moves {
        assert!(is_pass(&game.play_col(col)));
    }
    let line = win_line(game.play_col(0)).expect("red should win");
    assert_eq!(line, [0, 3, 3, 0]);
}

#[test]
fn three_in_a_row_passes() {
    let mut game = Game::default();
    for _ in 0..2 {
        assert!(is_pass(&game.play_col(3)));
        assert!(is_pass(&game.play_col(4)));
    }
    assert!(is_pass(&game.play_col(3)));
    assert_eq!(game.col_height(3), 3);
}

#[test]
fn full_column_is_an_error_and_changes_nothing() {
    let mut game = Game::default();
    for _ in 0..6 {
        game.play_col(5);
    }
    assert!(game.col_full(5));
    let before = game.grid();
    let turn = game.player_turn();
    assert!(is_error(&game.play_col(5)));
    assert_eq!(game.grid(), before);
    assert_eq!(game.player_turn(), turn);
    assert_eq!(game.col_height(5), 6);
}

#[test]
fn column_height_grows_by_one_per_move() {
    let mut game = Game::default();
    for expected in 1..=6usize {
        game.play_col(2);
        assert_eq!(game.col_height(2), expected);
        assert_eq!(game.col_height(1), 0);
    }
    assert!(game.col_full(2));
    assert!(!game.col_full(1));
}

#[test]
fn pieces_land_at_the_bottom_in_turn() {
    let mut game = Game::default();
    assert_eq!(game.player_turn(), Player::Red);
    game.play_col(6);
    assert_eq!(game.player_turn(), Player::Yellow);
    game.play_col(6);
    let grid = game.grid();
    assert_eq!(grid[6 * 6], Some(Player::Red));
    assert_eq!(grid[6 * 6 + 1], Some(Player::Yellow));
    assert_eq!(grid[6 * 6 + 2], None);
    assert_eq!(grid.iter().filter(|c| c.is_some()).count(), 2);
}

#[test]
fn new_game_is_empty_and_red_opens() {
    let game = Game::default();
    assert!(game.grid().iter().all(|c| c.is_none()));
    assert_eq!(game.player_turn(), Player::Red);
    assert_eq!(Game::COL, 7);
    assert_eq!(Game::ROW, 6);
}

#[test]
fn restarts_alternate_the_opener() {
    let mut game = Game::default();
    game.play_col(0);
    game.play_col(1);
    game.play_col(2);
    game.restart();
    assert!(game.grid().iter().all(|c| c.is_none()));
    assert_eq!(game.player_turn(), Player::Yellow);
    game.play_col(4);
    game.restart();
    assert!(game.grid().iter().all(|c| c.is_none()));
    assert_eq!(game.player_turn(), Player::Red);
    game.restart();
    assert_eq!(game.player_turn(), Player::Yellow);
}

#[test]
fn restart_depends_on_opener_not_on_mover() {
    let mut game = Game::default();
    game.play_col(0);
    assert_eq!(game.player_turn(), Player::Yellow);
    game.restart();
    assert_eq!(game.player_turn(), Player::Yellow);
}

#[test]
fn open_columns_and_full_grid() {
    let mut game = Game::default();
    assert_eq!(game.open_columns(), vec![0, 1, 2, 3, 4, 5, 6]);
    for col in [1usize, 4] {
        for _ in 0..6 {
            game.play_col(col);
        }
    }
    assert_eq!(game.open_columns(), vec![0, 2, 3, 5, 6]);
    assert!(!game.grid_full());
    for col in [0usize, 2, 3, 5, 6] {
        for _ in 0..6 {
            game.play_col(col);
        }
    }
    assert!(game.grid_full());
    assert!(game.open_columns().is_empty());
}

#[test]
fn first_direction_is_reported_when_two_lines_complete() {
    let mut game = Game::default();
    // Red ends with (3,0)..(3,2) below and (0,3)..(2,3) beside (3,3).
    let moves = [3usize, 0, 3, 0, 3, 1, 0, 1, 2, 1, 2, 2, 0, 6, 1, 6, 2, 6];
    for col in moves {
        assert!(is_pass(&game.play_col(col)));
    }
    assert_eq!(game.player_turn(), Player::Red);
    let line = win_line(game.play_col(3)).expect("red should win");
    assert_eq!(line, [3, 3, 3, 0]);
}
