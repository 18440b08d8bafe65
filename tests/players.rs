use connect_four::rollout::best_columns;
use connect_four::{BoardState, Game, Human, Intent, Random, Rollout};
use rand::rngs::StdRng;
use rand::SeedableRng;
use std::time::{Duration, Instant};

fn fill(game: &mut Game, cols: &[usize]) {
    for &col in cols {
        for _ in 0..6 {
            game.play_col(col);
        }
    }
}

#[test]
fn human_never_decides() {
    let mut human = Human;
    assert!(human.process_intent());
    human.start_process(Game::default());
    assert_eq!(human.intent(), Intent::Idle);
}

#[test]
fn random_reports_once() {
    let mut random = Random::new(StdRng::seed_from_u64(7));
    assert!(!random.process_intent());
    assert_eq!(random.intent(), Intent::Idle);
    random.start_process(Game::default());
    match random.intent() {
        Intent::Ready(col) => assert!(col < 7),
        other => panic!("expected a column, got {:?}", other),
    }
    assert_eq!(random.intent(), Intent::Idle);
    assert_eq!(random.intent(), Intent::Idle);
}

#[test]
fn random_avoids_full_columns() {
    let mut game = Game::default();
    fill(&mut game, &[0, 2, 3, 6]);
    for seed in 0..50u64 {
        let mut random = Random::new(StdRng::seed_from_u64(seed));
        random.start_process(game);
        match random.intent() {
            Intent::Ready(col) => assert!([1u8, 4, 5].contains(&col)),
            other => panic!("expected a column, got {:?}", other),
        }
    }
}

#[test]
fn random_with_one_open_column_takes_it() {
    let mut game = Game::default();
    fill(&mut game, &[0, 1, 2, 3, 4, 6]);
    for seed in 0..20u64 {
        let mut random = Random::new(StdRng::seed_from_u64(seed));
        random.start_process(game);
        assert_eq!(random.intent(), Intent::Ready(5));
    }
}

#[test]
fn random_on_a_full_board_falls_back() {
    let mut game = Game::default();
    fill(&mut game, &[0, 1, 2, 3, 4, 5, 6]);
    let mut random = Random::new(StdRng::seed_from_u64(1));
    random.start_process(game);
    assert_eq!(random.intent(), Intent::Ready(3));
}

#[test]
fn best_columns_lists_every_tie_in_order() {
    assert_eq!(best_columns(&[0, 5, 5, 1, 1, 1, 1]), vec![1, 2]);
    assert_eq!(best_columns(&[-3, -3, -3, -3, -3, -3, -3]), vec![0, 1, 2, 3, 4, 5, 6]);
    assert_eq!(best_columns(&[-9, -2, -7, -1, -8, -5, -4]), vec![3]);
    assert_eq!(best_columns(&[4, 0, 0, 0, 0, 0, 4]), vec![0, 6]);
}

#[test]
fn rollout_takes_an_immediate_win() {
    // Red has three stacked in column 2 and is to move.
    let mut game = Game::default();
    for _ in 0..3 {
        game.play_col(2);
        game.play_col(5);
    }
    let rollout = Rollout::default();
    for seed in 0..5u64 {
        let mut rng = StdRng::seed_from_u64(seed);
        assert_eq!(rollout.search(game, &mut rng), 2);
    }
}

#[test]
fn rollout_takes_the_only_open_column() {
    let mut game = Game::default();
    fill(&mut game, &[0, 1, 2, 4, 5, 6]);
    let rollout = Rollout::default();
    let mut rng = StdRng::seed_from_u64(3);
    assert_eq!(rollout.search(game, &mut rng), 3);
}

#[test]
fn rollout_picks_an_open_column() {
    let mut game = Game::default();
    fill(&mut game, &[0, 3, 6]);
    let rollout = Rollout::default();
    for seed in 0..3u64 {
        let mut rng = StdRng::seed_from_u64(seed);
        let col = rollout.search(game, &mut rng);
        assert!([1u8, 2, 4, 5].contains(&col));
    }
}

#[test]
fn rollout_on_a_full_board_still_answers_a_column() {
    let mut game = Game::default();
    fill(&mut game, &[0, 1, 2, 3, 4, 5, 6]);
    let mut rng = StdRng::seed_from_u64(9);
    assert!(Rollout::default().search(game, &mut rng) < 7);
}

#[test]
fn rollout_polls_wait_then_report_once() {
    let mut rollout = Rollout::default();
    assert!(!rollout.process_intent());
    assert_eq!(rollout.intent(None), Intent::Idle);
    rollout.start_process();
    let started = Instant::now();
    for _ in 0..100 {
        assert_eq!(rollout.intent(None), Intent::Waiting);
    }
    assert!(started.elapsed() < Duration::from_millis(100));
    assert_eq!(rollout.intent(Some(4)), Intent::Ready(4));
    assert_eq!(rollout.intent(None), Intent::Idle);
    assert_eq!(rollout.intent(Some(2)), Intent::Idle);
    rollout.start_process();
    assert_eq!(rollout.intent(Some(6)), Intent::Ready(6));
}

#[test]
fn board_state_moves_along_allowed_changes() {
    let mut state = BoardState::Initialize;
    assert_eq!(state.new_action(BoardState::Waiting), Some(BoardState::Initialize));
    assert_eq!(state, BoardState::Waiting);
    assert_eq!(state.new_action(BoardState::Initialize), None);
    assert_eq!(state, BoardState::Waiting);
    assert_eq!(state.new_action(BoardState::Sliding), Some(BoardState::Waiting));
    assert_eq!(state.new_action(BoardState::Playing), Some(BoardState::Sliding));
    assert_eq!(state, BoardState::SlideThenPlay);
    assert_eq!(state.new_action(BoardState::Playing), Some(BoardState::SlideThenPlay));
    assert_eq!(state.new_action(BoardState::Sliding), None);
    assert_eq!(state.new_action(BoardState::Win), Some(BoardState::Playing));
    assert!(state.finished());
    assert_eq!(state.new_action(BoardState::Waiting), None);
    assert_eq!(state.new_action(BoardState::Initialize), Some(BoardState::Win));
    assert_eq!(state, BoardState::Initialize);
    assert!(!state.finished());
}

#[test]
fn board_state_finished_phases() {
    assert!(BoardState::Finished.finished());
    assert!(BoardState::Win.finished());
    assert!(!BoardState::Playing.finished());
    let mut state = BoardState::Finished;
    assert_eq!(state.new_action(BoardState::Initialize), Some(BoardState::Finished));
}
