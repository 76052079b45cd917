//! Scoring of a guess against a target word.
//!
//! Both words have exactly [`WORD_LEN`] characters. Each guess position gets
//! one of three feedback symbols, computed in two passes: first every exact
//! positional match is marked and its target position consumed, then each
//! remaining guess character claims the leftmost unconsumed target position
//! holding the same character, if any.

use vstd::prelude::*;

verus! {

/// Length of every guess and of the target word.
pub const WORD_LEN: usize = 5;

/// Feedback for one guess position.
#[derive(Clone, Copy, Debug, PartialEq, Eq, Structural)]
pub enum Feedback {
    /// The guess character equals the target character at this position.
    Exact,
    /// The guess character occurs at some other, unconsumed target position.
    Present,
    /// The guess character matched no target position under either rule.
    Absent,
}

/// Which target positions the exact-match pass consumes: exactly those where
/// guess and target agree.
pub open spec fn exact_mask(guess: Seq<char>, target: Seq<char>) -> Seq<bool> {
    Seq::new(target.len(), |j: int| guess[j] == target[j])
}

/// The leftmost position `j` at or after `from` with `!used[j]` and
/// `target[j] == c`, if any.
pub open spec fn first_unused(target: Seq<char>, used: Seq<bool>, c: char, from: nat) -> Option<
    nat,
>
    decreases target.len() - from,
    when from <= target.len()
{
    if from >= target.len() {
        None
    } else if !used[from as int] && target[from as int] == c {
        Some(from)
    } else {
        first_unused(target, used, c, (from + 1) as nat)
    }
}

/// Feedback for guess positions `i..` of the present-match pass, given the
/// target positions consumed so far. Exact positions keep their symbol; every
/// other position claims the leftmost unconsumed occurrence of its character.
pub open spec fn score_from(guess: Seq<char>, target: Seq<char>, used: Seq<bool>, i: nat) -> Seq<
    Feedback,
>
    decreases guess.len() - i,
    when i <= guess.len() && guess.len() == target.len()
{
    if i >= guess.len() {
        Seq::empty()
    } else if guess[i as int] == target[i as int] {
        seq![Feedback::Exact] + score_from(guess, target, used, (i + 1) as nat)
    } else {
        match first_unused(target, used, guess[i as int], 0) {
            Some(j) => seq![Feedback::Present] + score_from(
                guess,
                target,
                used.update(j as int, true),
                (i + 1) as nat,
            ),
            None => seq![Feedback::Absent] + score_from(guess, target, used, (i + 1) as nat),
        }
    }
}

/// The feedback sequence for a whole guess: the present-match pass run over
/// the consumption state that the exact-match pass leaves behind.
pub open spec fn score_spec(guess: Seq<char>, target: Seq<char>) -> Seq<Feedback> {
    score_from(guess, target, exact_mask(guess, target), 0)
}

/// Skipping positions that are used or hold another character does not change
/// where the leftmost eligible occurrence lies.
proof fn lemma_first_unused_skip(target: Seq<char>, used: Seq<bool>, c: char, from: nat)
    requires
        from < target.len(),
        used[from as int] || target[from as int] != c,
    ensures
        first_unused(target, used, c, from) == first_unused(target, used, c, (from + 1) as nat),
{
}

/// The two-pass scorer. `feedback[i]` is `Exact` where guess and target agree,
/// `Present` where the guess character claims the leftmost unconsumed target
/// occurrence, and `Absent` otherwise.
pub fn score(guess: &Vec<char>, target: &Vec<char>) -> (feedback: Vec<Feedback>)
    requires
        guess@.len() == WORD_LEN,
        target@.len() == WORD_LEN,
    ensures
        feedback@ == score_spec(guess@, target@),
        feedback@.len() == WORD_LEN,
{
    let mut feedback: Vec<Feedback> = Vec::new();
    let mut used: Vec<bool> = Vec::new();

    // Exact-match pass: mark agreements and consume their target positions.
    let mut i: usize = 0;
    while i < WORD_LEN
        invariant
            i <= WORD_LEN,
            guess@.len() == WORD_LEN,
            target@.len() == WORD_LEN,
            feedback@.len() == i,
            used@.len() == i,
            forall|k: int|
                0 <= k < i ==> feedback@[k] == (if guess@[k] == target@[k] {
                    Feedback::Exact
                } else {
                    Feedback::Absent
                }),
            forall|k: int| 0 <= k < i ==> used@[k] == (guess@[k] == target@[k]),
        decreases WORD_LEN - i,
    {
        if guess[i] == target[i] {
            feedback.push(Feedback::Exact);
            used.push(true);
        } else {
            feedback.push(Feedback::Absent);
            used.push(false);
        }
        i = i + 1;
    }
    assert(used@ =~= exact_mask(guess@, target@));

    // Present-match pass: each non-exact position claims the leftmost
    // unconsumed target occurrence of its character.
    let mut i: usize = 0;
    while i < WORD_LEN
        invariant
            i <= WORD_LEN,
            guess@.len() == WORD_LEN,
            target@.len() == WORD_LEN,
            feedback@.len() == WORD_LEN,
            used@.len() == WORD_LEN,
            forall|k: int|
                i <= k < WORD_LEN ==> feedback@[k] == (if guess@[k] == target@[k] {
                    Feedback::Exact
                } else {
                    Feedback::Absent
                }),
            score_spec(guess@, target@) == feedback@.subrange(0, i as int) + score_from(
                guess@,
                target@,
                used@,
                i as nat,
            ),
        decreases WORD_LEN - i,
    {
        let ghost prev_used = used@;
        let ghost prev_feedback = feedback@;
        if guess[i] != target[i] {
            let c = guess[i];
            let mut j: usize = 0;
            let mut found = false;
            while j < WORD_LEN && !found
                invariant
                    j <= WORD_LEN,
                    guess@.len() == WORD_LEN,
                    target@.len() == WORD_LEN,
                    used@.len() == WORD_LEN,
                    c == guess@[i as int],
                    !found ==> used@ == prev_used,
                    !found ==> first_unused(target@, used@, c, 0) == first_unused(
                        target@,
                        used@,
                        c,
                        j as nat,
                    ),
                    found ==> {
                        &&& first_unused(target@, prev_used, c, 0) matches Some(m)
                        &&& 0 <= m < WORD_LEN
                        &&& used@ == prev_used.update(m as int, true)
                    },
                decreases WORD_LEN - j, (if found {
                    0int
                } else {
                    1int
                }),
            {
                if !used[j] && target[j] == c {
                    used.set(j, true);
                    found = true;
                } else {
                    proof {
                        lemma_first_unused_skip(target@, used@, c, j as nat);
                    }
                    j = j + 1;
                }
            }
            if found {
                feedback.set(i, Feedback::Present);
            } else {
                assert(first_unused(target@, used@, c, j as nat) is None);
            }
        }
        proof {
            assert(score_from(guess@, target@, prev_used, i as nat) == seq![feedback@[i as int]]
                + score_from(guess@, target@, used@, (i + 1) as nat));
            assert(feedback@.subrange(0, i + 1 as int) =~= prev_feedback.subrange(0, i as int)
                + seq![feedback@[i as int]]);
            assert(score_spec(guess@, target@) == feedback@.subrange(0, i + 1 as int) + score_from(
                guess@,
                target@,
                used@,
                (i + 1) as nat,
            ));
        }
        i = i + 1;
    }
    assert(feedback@ =~= feedback@.subrange(0, WORD_LEN as int));
    feedback
}

proof fn lemma_all_exact_from(s: Seq<char>, used: Seq<bool>, i: nat)
    requires
        i <= s.len(),
    ensures
        score_from(s, s, used, i) =~= Seq::new((s.len() - i) as nat, |k: int| Feedback::Exact),
    decreases s.len() - i,
{
    if i < s.len() {
        lemma_all_exact_from(s, used, (i + 1) as nat);
    }
}

/// Law: a guess equal to the target scores Exact at every position.
pub proof fn lemma_guess_equals_target_all_exact(guess: Seq<char>, target: Seq<char>)
    requires
        guess.len() == WORD_LEN,
        guess == target,
    ensures
        score_spec(guess, target) =~= seq![
            Feedback::Exact,
            Feedback::Exact,
            Feedback::Exact,
            Feedback::Exact,
            Feedback::Exact,
        ],
{
    lemma_all_exact_from(guess, exact_mask(guess, target), 0);
}

proof fn lemma_first_unused_none(target: Seq<char>, used: Seq<bool>, c: char, from: nat)
    requires
        from <= target.len(),
        forall|j: int| 0 <= j < target.len() ==> target[j] != c,
    ensures
        first_unused(target, used, c, from) is None,
    decreases target.len() - from,
{
    if from < target.len() {
        lemma_first_unused_none(target, used, c, (from + 1) as nat);
    }
}

proof fn lemma_all_absent_from(guess: Seq<char>, target: Seq<char>, used: Seq<bool>, i: nat)
    requires
        i <= guess.len(),
        guess.len() == target.len(),
        forall|k: int, j: int|
            0 <= k < guess.len() && 0 <= j < target.len() ==> guess[k] != target[j],
    ensures
        score_from(guess, target, used, i) =~= Seq::new(
            (guess.len() - i) as nat,
            |k: int| Feedback::Absent,
        ),
    decreases guess.len() - i,
{
    if i < guess.len() {
        lemma_first_unused_none(target, used, guess[i as int], 0);
        lemma_all_absent_from(guess, target, used, (i + 1) as nat);
    }
}

/// Law: a guess sharing no character with the target scores Absent at every
/// position.
pub proof fn lemma_no_shared_chars_all_absent(guess: Seq<char>, target: Seq<char>)
    requires
        guess.len() == WORD_LEN,
        target.len() == WORD_LEN,
        forall|k: int, j: int|
            0 <= k < guess.len() && 0 <= j < target.len() ==> guess[k] != target[j],
    ensures
        score_spec(guess, target) =~= seq![
            Feedback::Absent,
            Feedback::Absent,
            Feedback::Absent,
            Feedback::Absent,
            Feedback::Absent,
        ],
{
    lemma_all_absent_from(guess, target, exact_mask(guess, target), 0);
}

/// The character that renders one feedback symbol.
pub open spec fn symbol_char(f: Feedback) -> char {
    match f {
        Feedback::Exact => '✅',
        Feedback::Present => '🟡',
        Feedback::Absent => '❌',
    }
}

/// A feedback sequence rendered as one character per position.
pub open spec fn render_spec(s: Seq<Feedback>) -> Seq<char> {
    s.map_values(|f: Feedback| symbol_char(f))
}

/// The characters of a string, as a vector.
pub fn chars_of(s: &str) -> (r: Vec<char>)
    ensures
        r@ == s@,
{
    let n = s.unicode_len();
    let mut r: Vec<char> = Vec::new();
    let mut i: usize = 0;
    while i < n
        invariant
            i <= n,
            n == s@.len(),
            r@ == s@.subrange(0, i as int),
        decreases n - i,
    {
        r.push(s.get_char(i));
        assert(r@ =~= s@.subrange(0, i + 1 as int));
        i = i + 1;
    }
    assert(r@ =~= s@);
    r
}

/// Renders a feedback sequence as a string, one symbol character per
/// position.
pub fn render_feedback(feedback: &Vec<Feedback>) -> (result: String)
    ensures
        result@ == render_spec(feedback@),
{
    let ghost rendered = render_spec(feedback@);
    proof {
        reveal_strlit("✅");
        reveal_strlit("🟡");
        reveal_strlit("❌");
    }
    let n = feedback.len();
    let mut result = String::new();
    let mut i: usize = 0;
    while i < n
        invariant
            i <= n,
            feedback@.len() == n,
            rendered == render_spec(feedback@),
            result@ == rendered.subrange(0, i as int),
            "✅"@ =~= seq!['✅'],
            "🟡"@ =~= seq!['🟡'],
            "❌"@ =~= seq!['❌'],
        decreases n - i,
    {
        match feedback[i] {
            Feedback::Exact => result.append("✅"),
            Feedback::Present => result.append("🟡"),
            Feedback::Absent => result.append("❌"),
        }
        assert(result@ =~= rendered.subrange(0, i + 1 as int));
        i = i + 1;
    }
    assert(result@ =~= rendered);
    result
}

/// Scores a guess against the target and renders the feedback as a string,
/// one symbol per guess position.
pub fn check_word(guess: &str, target: &str) -> (result: String)
    requires
        guess@.len() == WORD_LEN,
        target@.len() == WORD_LEN,
    ensures
        result@ == render_spec(score_spec(guess@, target@)),
{
    let guess_chars = chars_of(guess);
    let target_chars = chars_of(target);
    let feedback = score(&guess_chars, &target_chars);
    render_feedback(&feedback)
}

} // verus!
