use guess_game::game::{Comparison, GuessGame, PlayOutcome};

#[test]
fn counter_increments_on_every_outcome() {
    let mut game = GuessGame::with_secret(50);
    assert_eq!(game.attempt_count(), 0);
    game.play(30);
    assert_eq!(game.attempt_count(), 1);
    game.play(30);
    assert_eq!(game.attempt_count(), 2);
    game.play(150);
    assert_eq!(game.attempt_count(), 3);
    game.play(50);
    assert_eq!(game.attempt_count(), 4);
    game.play(50);
    assert_eq!(game.attempt_count(), 5);
}

#[test]
fn low_guess_then_repeat() {
    let mut game = GuessGame::with_secret(50);
    assert_eq!(game.play(30), PlayOutcome::Compared(Comparison::Less));
    assert_eq!(game.attempt_count(), 1);
    assert_eq!(game.play(30), PlayOutcome::AlreadyTried);
    assert_eq!(game.attempt_count(), 2);
    assert!(game.tried[30]);
    assert_eq!(game.play(30), PlayOutcome::AlreadyTried);
    assert!(game.tried[30]);
}

#[test]
fn high_guess() {
    let mut game = GuessGame::with_secret(50);
    assert_eq!(game.play(70), PlayOutcome::Compared(Comparison::Greater));
    assert_eq!(game.attempt_count(), 1);
}

#[test]
fn winning_guess_and_fresh_replacement() {
    let mut game = GuessGame::with_secret(50);
    assert_eq!(game.play(50), PlayOutcome::Compared(Comparison::Equal));
    assert_eq!(game.attempt_count(), 1);
    // The service replaces the instance with a fresh one on a win.
    let fresh = GuessGame::new();
    assert_eq!(fresh.attempt_count(), 0);
    assert!(1 <= fresh.secret && fresh.secret <= 100);
    assert_eq!(fresh.tried.len(), 100);
    assert!(fresh.tried.iter().all(|&t| !t));
}

#[test]
fn out_of_range_increments_counter_only() {
    let mut game = GuessGame::with_secret(50);
    assert_eq!(game.play(150), PlayOutcome::OutOfRange);
    assert_eq!(game.attempt_count(), 1);
    assert!(game.tried.iter().all(|&t| !t));
}

#[test]
fn slot_boundaries() {
    let mut game = GuessGame::with_secret(50);
    // The table has slots for 0..=99 only: 100 is the first value without one.
    assert_eq!(game.play(100), PlayOutcome::OutOfRange);
    assert_eq!(game.play(0), PlayOutcome::Compared(Comparison::Less));
    assert_eq!(game.play(99), PlayOutcome::Compared(Comparison::Greater));
    assert_eq!(game.play(u32::MAX), PlayOutcome::OutOfRange);
    assert_eq!(game.attempt_count(), 4);
}

#[test]
fn win_only_on_the_secret() {
    for guess in 0u32..100 {
        let mut game = GuessGame::with_secret(50);
        let outcome = game.play(guess);
        if guess == 50 {
            assert_eq!(outcome, PlayOutcome::Compared(Comparison::Equal));
        } else {
            assert_ne!(outcome, PlayOutcome::Compared(Comparison::Equal));
        }
        assert_eq!(game.secret, 50);
    }
}

#[test]
fn distinct_guesses_mark_distinct_slots() {
    let mut game = GuessGame::with_secret(50);
    let guesses: Vec<u32> = vec![3, 97, 14, 0, 99, 41, 58, 7, 76, 23];
    for &g in &guesses {
        let outcome = game.play(g);
        assert!(matches!(outcome, PlayOutcome::Compared(_)));
    }
    assert_eq!(game.attempt_count(), guesses.len() as u32);
    let marked = game.tried.iter().filter(|&&t| t).count();
    assert_eq!(marked, guesses.len());
    for &g in &guesses {
        assert!(game.tried[g as usize]);
    }
}

#[test]
fn secret_from_fresh_game_is_in_range() {
    for _ in 0..50 {
        let game = GuessGame::new();
        assert!(1 <= game.secret && game.secret <= 100);
    }
}
