use minigames::game::{normalize, Game, Status, StepResult};
use minigames::scoring::Feedback;

fn chars(s: &str) -> Vec<char> {
    s.chars().collect()
}

fn new_game(target: &str, max_attempts: u32) -> Game {
    Game::new(chars(target), max_attempts)
}

#[test]
fn normalize_trims_and_uppercases() {
    assert_eq!(normalize(&chars("  hello \n")), chars("HELLO"));
    assert_eq!(normalize(&chars("HeLLo")), chars("HELLO"));
    assert_eq!(normalize(&chars("\tHELLO")), chars("HELLO"));
}

#[test]
fn normalize_variants_share_canonical_form() {
    let canonical = normalize(&chars("hello"));
    assert_eq!(normalize(&chars(" HELLO ")), canonical);
    assert_eq!(normalize(&chars("hElLo\r\n")), canonical);
    assert_eq!(normalize(&canonical), canonical);
}

#[test]
fn normalize_empty_and_all_whitespace() {
    assert_eq!(normalize(&chars("")), chars(""));
    assert_eq!(normalize(&chars(" \t\r\n ")), chars(""));
}

#[test]
fn quit_ends_session_without_charging_attempt() {
    let mut game = new_game("HELLO", 6);
    assert!(matches!(game.step(&chars("crane\n")), StepResult::Scored { .. }));
    assert_eq!(game.attempts(), 1);
    assert!(matches!(game.step(&chars("  QuIt \n")), StepResult::Quit));
    assert_eq!(game.attempts(), 1);
}

#[test]
fn wrong_length_charges_no_attempt() {
    let mut game = new_game("HELLO", 6);
    assert!(matches!(game.step(&chars("hi\n")), StepResult::Invalid));
    assert!(matches!(game.step(&chars("toolong\n")), StepResult::Invalid));
    assert!(matches!(game.step(&chars("\n")), StepResult::Invalid));
    assert_eq!(game.attempts(), 0);
}

#[test]
fn six_wrong_guesses_lose() {
    let mut game = new_game("HELLO", 6);
    for k in 0..5 {
        match game.step(&chars("crane\n")) {
            StepResult::Scored { status, .. } => assert_eq!(status, Status::Continue),
            _ => panic!("guess {} should have been scored", k),
        }
    }
    match game.step(&chars("crane\n")) {
        StepResult::Scored { status, .. } => assert_eq!(status, Status::Lost),
        _ => panic!("the last guess should have been scored"),
    }
    assert_eq!(game.attempts(), 6);
}

#[test]
fn correct_guess_wins_with_attempt_count() {
    let mut game = new_game("HELLO", 6);
    assert!(matches!(game.step(&chars("crane\n")), StepResult::Scored { .. }));
    match game.step(&chars(" hello \n")) {
        StepResult::Scored { status, feedback } => {
            assert_eq!(status, Status::Won);
            assert_eq!(feedback, vec![Feedback::Exact; 5]);
        }
        _ => panic!("the winning guess should have been scored"),
    }
    assert_eq!(game.attempts(), 2);
}

#[test]
fn winning_on_last_attempt_wins() {
    let mut game = new_game("HELLO", 2);
    assert!(matches!(game.step(&chars("crane\n")), StepResult::Scored { .. }));
    match game.step(&chars("hello\n")) {
        StepResult::Scored { status, .. } => assert_eq!(status, Status::Won),
        _ => panic!("the winning guess should have been scored"),
    }
}

#[test]
fn scored_feedback_matches_check_word() {
    let mut game = new_game("HELLO", 6);
    match game.step(&chars("hlelx\n")) {
        StepResult::Scored { feedback, status } => {
            assert_eq!(
                feedback,
                vec![
                    Feedback::Exact,
                    Feedback::Present,
                    Feedback::Present,
                    Feedback::Exact,
                    Feedback::Absent
                ]
            );
            assert_eq!(status, Status::Continue);
        }
        _ => panic!("the guess should have been scored"),
    }
}
