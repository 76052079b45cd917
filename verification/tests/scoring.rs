use minigames::scoring::{check_word, render_feedback, score, Feedback};

fn chars(s: &str) -> Vec<char> {
    s.chars().collect()
}

#[test]
fn test_exact_match() {
    let result = check_word("HELLO", "HELLO");
    assert_eq!(result, "✅✅✅✅✅");
}

#[test]
fn test_no_match() {
    let result = check_word("ABCDE", "FGHIJ");
    assert_eq!(result, "❌❌❌❌❌");
}

#[test]
fn test_partial_match() {
    let result = check_word("HLELX", "HELLO");
    // H matches exactly, L in pos 1 is in word but wrong position,
    // E in pos 2 is in word but wrong position, L in pos 3 matches exactly, X is not in word
    assert_eq!(result, "✅🟡🟡✅❌");
}

#[test]
fn test_mixed_match() {
    let result = check_word("LLEHO", "HELLO");
    // L in pos 0 is in word but wrong position, L in pos 1 is in word but wrong position,
    // E in pos 2 is in word but wrong position, H in pos 3 is in word but wrong position, O matches exactly
    assert_eq!(result, "🟡🟡🟡🟡✅");
}

#[test]
fn score_all_exact() {
    let fb = score(&chars("CRANE"), &chars("CRANE"));
    assert_eq!(fb, vec![Feedback::Exact; 5]);
}

#[test]
fn score_all_absent() {
    let fb = score(&chars("MOUNT"), &chars("GRIPE"));
    assert_eq!(
        fb,
        vec![
            Feedback::Absent,
            Feedback::Absent,
            Feedback::Absent,
            Feedback::Absent,
            Feedback::Absent
        ]
    );
}

#[test]
fn score_leftmost_target_position_consumed_first() {
    // Target holds one L; the guess offers two. Only the first guess L may
    // claim it, the second comes up empty.
    let fb = score(&chars("LLAAA"), &chars("GGGGL"));
    assert_eq!(
        fb,
        vec![
            Feedback::Present,
            Feedback::Absent,
            Feedback::Absent,
            Feedback::Absent,
            Feedback::Absent
        ]
    );
}

#[test]
fn score_exact_match_consumes_before_present() {
    // The exact L at position 4 consumes that target slot first, so the
    // guess's extra L at position 0 must claim the target's other L.
    let fb = score(&chars("LGGGL"), &chars("ALGGL"));
    assert_eq!(
        fb,
        vec![
            Feedback::Present,
            Feedback::Absent,
            Feedback::Exact,
            Feedback::Exact,
            Feedback::Exact
        ]
    );
}

#[test]
fn render_feedback_symbols() {
    let rendered = render_feedback(&vec![
        Feedback::Exact,
        Feedback::Present,
        Feedback::Absent,
    ]);
    assert_eq!(rendered, "✅🟡❌");
}
