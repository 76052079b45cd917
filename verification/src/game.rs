//! The guessing-game session: input normalization, the quit sentinel, the
//! attempt counter, and the per-guess state transition.
//!
//! A session repeatedly takes one raw input line. The line is normalized
//! (surrounding whitespace trimmed, ASCII letters uppercased); a normalized
//! line equal to the quit sentinel ends the session at once, one of the wrong
//! length is rejected without charging an attempt, and any other line counts
//! as a guess: it is scored against the target, and the session ends Won on
//! an exact match or Lost when the attempt limit is exhausted.

use vstd::prelude::*;

use crate::scoring::{score, score_spec, Feedback, WORD_LEN};

verus! {

/// ASCII whitespace, as the trimming step removes it.
pub open spec fn is_space(c: char) -> bool {
    c == ' ' || c == '\t' || c == '\n' || c == '\u{0C}' || c == '\r'
}

/// An ASCII lowercase letter mapped to its uppercase form; any other
/// character unchanged.
pub open spec fn upper_char(c: char) -> char {
    if 'a' as u32 <= c as u32 && c as u32 <= 'z' as u32 {
        (c as u32 - 32) as char
    } else {
        c
    }
}

/// A sequence uppercased character by character.
pub open spec fn upper_seq(s: Seq<char>) -> Seq<char> {
    s.map_values(|c: char| upper_char(c))
}

/// The sequence with its leading whitespace removed.
pub open spec fn trim_front(s: Seq<char>) -> Seq<char>
    decreases s.len(),
{
    if s.len() > 0 && is_space(s[0]) {
        trim_front(s.drop_first())
    } else {
        s
    }
}

/// The sequence with its trailing whitespace removed.
pub open spec fn trim_back(s: Seq<char>) -> Seq<char>
    decreases s.len(),
{
    if s.len() > 0 && is_space(s.last()) {
        trim_back(s.drop_last())
    } else {
        s
    }
}

/// The sequence with whitespace removed from both ends.
pub open spec fn trim_spec(s: Seq<char>) -> Seq<char> {
    trim_back(trim_front(s))
}

/// Canonical form of a raw input line: trimmed, then uppercased.
pub open spec fn normalize_spec(s: Seq<char>) -> Seq<char> {
    upper_seq(trim_spec(s))
}

/// The normalized quit sentinel.
pub open spec fn quit_word() -> Seq<char> {
    seq!['Q', 'U', 'I', 'T']
}

fn is_space_char(c: char) -> (r: bool)
    ensures
        r == is_space(c),
{
    c == ' ' || c == '\t' || c == '\n' || c == '\u{0C}' || c == '\r'
}

fn upper_char_exec(c: char) -> (r: char)
    ensures
        r == upper_char(c),
{
    let u = c as u32;
    if 97 <= u && u <= 122 {
        let up = ((c as u8) - 32) as char;
        proof {
            vstd::utf8::char_u32_cast(up, up as u32);
        }
        up
    } else {
        c
    }
}

/// Leading whitespace never survives trimming: dropping one leading space
/// keeps the trimmed-front value.
proof fn lemma_trim_front_step(s: Seq<char>, i: nat)
    requires
        i <= s.len(),
        forall|k: int| 0 <= k < i ==> is_space(s[k]),
    ensures
        trim_front(s) == trim_front(s.skip(i as int)),
    decreases i,
{
    if i > 0 {
        lemma_trim_front_step(s, (i - 1) as nat);
        assert(s.skip(i - 1).drop_first() =~= s.skip(i as int));
        assert(trim_front(s.skip(i - 1)) == trim_front(s.skip(i as int)));
    } else {
        assert(s.skip(0) =~= s);
    }
}

/// Trailing whitespace never survives trimming: dropping one trailing space
/// keeps the trimmed-back value.
proof fn lemma_trim_back_step(s: Seq<char>, i: nat)
    requires
        i <= s.len(),
        forall|k: int| i <= k < s.len() ==> is_space(s[k]),
    ensures
        trim_back(s) == trim_back(s.take(i as int)),
    decreases s.len() - i,
{
    if i < s.len() {
        lemma_trim_back_step(s, (i + 1) as nat);
        assert(s.take(i as int + 1).drop_last() =~= s.take(i as int));
        assert(trim_back(s.take(i as int + 1)) == trim_back(s.take(i as int)));
    } else {
        assert(s.take(s.len() as int) =~= s);
    }
}

/// Normalizes one raw input line: removes surrounding whitespace and
/// uppercases ASCII letters.
pub fn normalize(raw: &Vec<char>) -> (r: Vec<char>)
    ensures
        r@ == normalize_spec(raw@),
{
    let n = raw.len();
    let mut start: usize = 0;
    while start < n && is_space_char(raw[start])
        invariant
            start <= n,
            n == raw@.len(),
            forall|k: int| 0 <= k < start ==> is_space(raw@[k]),
        decreases n - start,
    {
        start = start + 1;
    }
    proof {
        lemma_trim_front_step(raw@, start as nat);
        if start < raw@.len() {
            assert(!is_space(raw@.skip(start as int)[0]));
        }
        assert(trim_front(raw@) == raw@.skip(start as int));
    }
    let mut end: usize = n;
    while end > start && is_space_char(raw[end - 1])
        invariant
            start <= end <= n,
            n == raw@.len(),
            forall|k: int| end <= k < n ==> is_space(raw@[k]),
        decreases end,
    {
        end = end - 1;
    }
    proof {
        assert(raw@.skip(start as int).take(end - start) =~= raw@.subrange(
            start as int,
            end as int,
        ));
        lemma_trim_back_step(raw@.skip(start as int), (end - start) as nat);
        if end > start {
            assert(!is_space(raw@.subrange(start as int, end as int).last()));
        }
        assert(trim_spec(raw@) == raw@.subrange(start as int, end as int));
    }
    let mut r: Vec<char> = Vec::new();
    let mut i: usize = start;
    while i < end
        invariant
            start <= i <= end <= n,
            n == raw@.len(),
            r@ == upper_seq(raw@.subrange(start as int, i as int)),
        decreases end - i,
    {
        r.push(upper_char_exec(raw[i]));
        assert(r@ =~= upper_seq(raw@.subrange(start as int, i + 1 as int)));
        i = i + 1;
    }
    assert(r@ =~= normalize_spec(raw@));
    r
}

/// Uppercasing keeps whitespace exactly where it was.
proof fn lemma_upper_keeps_spaces(c: char)
    ensures
        is_space(upper_char(c)) == is_space(c),
{
}

/// Uppercasing one character is idempotent.
proof fn lemma_upper_char_idempotent(c: char)
    ensures
        upper_char(upper_char(c)) == upper_char(c),
{
}

/// The front-trimmed sequence starts with a non-space, if it is nonempty.
proof fn lemma_trim_front_head(s: Seq<char>)
    ensures
        trim_front(s).len() == 0 || !is_space(trim_front(s)[0]),
    decreases s.len(),
{
    if s.len() > 0 && is_space(s[0]) {
        lemma_trim_front_head(s.drop_first());
    }
}

/// The back-trimmed sequence is a prefix that ends with a non-space, if it is
/// nonempty.
proof fn lemma_trim_back_prefix(s: Seq<char>)
    ensures
        trim_back(s).len() <= s.len(),
        trim_back(s) == s.take(trim_back(s).len() as int),
        trim_back(s).len() == 0 || !is_space(trim_back(s).last()),
    decreases s.len(),
{
    if s.len() > 0 && is_space(s.last()) {
        lemma_trim_back_prefix(s.drop_last());
        assert(s.drop_last().take(trim_back(s).len() as int) =~= s.take(
            trim_back(s).len() as int,
        ));
    } else {
        assert(s.take(s.len() as int) =~= s);
    }
}

/// A fully trimmed sequence is empty or has non-space characters at both
/// ends.
proof fn lemma_trim_spec_ends(s: Seq<char>)
    ensures
        trim_spec(s).len() == 0 || (!is_space(trim_spec(s)[0]) && !is_space(trim_spec(s).last())),
{
    lemma_trim_front_head(s);
    lemma_trim_back_prefix(trim_front(s));
}

/// Law: normalization is idempotent; a normalized line is its own canonical
/// form, so every casing or whitespace variant of a guess shares one
/// canonical form with it.
pub proof fn lemma_normalize_idempotent(s: Seq<char>)
    ensures
        normalize_spec(normalize_spec(s)) == normalize_spec(s),
{
    let t = trim_spec(s);
    let u = upper_seq(t);
    lemma_trim_spec_ends(s);
    if u.len() > 0 {
        lemma_upper_keeps_spaces(t[0]);
        lemma_upper_keeps_spaces(t.last());
        assert(!is_space(u[0]));
        assert(!is_space(u.last()));
    }
    assert(trim_front(u) == u);
    assert(trim_back(u) == u);
    assert(upper_seq(u) =~= u) by {
        assert forall|k: int| 0 <= k < u.len() implies upper_seq(u)[k] == u[k] by {
            lemma_upper_char_idempotent(t[k]);
        }
    }
}

/// Whether two lines differ at most in the case of their characters.
pub open spec fn case_variant(a: Seq<char>, b: Seq<char>) -> bool {
    a.len() == b.len() && forall|k: int|
        0 <= k < a.len() ==> upper_char(a[k]) == upper_char(b[k])
}

/// Characters that agree after uppercasing are both whitespace or neither:
/// whitespace is a fixed point of uppercasing and nothing else maps to it.
proof fn lemma_upper_equal_space(x: char, y: char)
    requires
        upper_char(x) == upper_char(y),
    ensures
        is_space(x) == is_space(y),
{
}

proof fn lemma_trim_front_case(a: Seq<char>, b: Seq<char>)
    requires
        case_variant(a, b),
    ensures
        case_variant(trim_front(a), trim_front(b)),
    decreases a.len(),
{
    if a.len() > 0 {
        lemma_upper_equal_space(a[0], b[0]);
        if is_space(a[0]) {
            assert(case_variant(a.drop_first(), b.drop_first()));
            lemma_trim_front_case(a.drop_first(), b.drop_first());
        }
    }
}

proof fn lemma_trim_back_case(a: Seq<char>, b: Seq<char>)
    requires
        case_variant(a, b),
    ensures
        case_variant(trim_back(a), trim_back(b)),
    decreases a.len(),
{
    if a.len() > 0 {
        lemma_upper_equal_space(a.last(), b.last());
        if is_space(a.last()) {
            assert(case_variant(a.drop_last(), b.drop_last()));
            lemma_trim_back_case(a.drop_last(), b.drop_last());
        }
    }
}

/// Lines that differ only in case share one canonical form.
proof fn lemma_case_variant_same_canonical(a: Seq<char>, b: Seq<char>)
    requires
        case_variant(a, b),
    ensures
        normalize_spec(a) == normalize_spec(b),
{
    lemma_trim_front_case(a, b);
    lemma_trim_back_case(trim_front(a), trim_front(b));
    assert(upper_seq(trim_spec(a)) =~= upper_seq(trim_spec(b)));
}

proof fn lemma_trim_front_pad(pre: Seq<char>, x: Seq<char>)
    requires
        forall|k: int| 0 <= k < pre.len() ==> is_space(pre[k]),
    ensures
        trim_front(pre + x) == trim_front(x),
    decreases pre.len(),
{
    if pre.len() > 0 {
        assert((pre + x)[0] == pre[0]);
        assert((pre + x).drop_first() =~= pre.drop_first() + x);
        lemma_trim_front_pad(pre.drop_first(), x);
    } else {
        assert(pre + x =~= x);
    }
}

proof fn lemma_trim_back_pad(x: Seq<char>, post: Seq<char>)
    requires
        forall|k: int| 0 <= k < post.len() ==> is_space(post[k]),
    ensures
        trim_back(x + post) == trim_back(x),
    decreases post.len(),
{
    if post.len() > 0 {
        assert((x + post).last() == post.last());
        assert((x + post).drop_last() =~= x + post.drop_last());
        lemma_trim_back_pad(x, post.drop_last());
    } else {
        assert(x + post =~= x);
    }
}

proof fn lemma_trim_front_all_space(s: Seq<char>)
    requires
        forall|k: int| 0 <= k < s.len() ==> is_space(s[k]),
    ensures
        trim_front(s) == Seq::<char>::empty(),
    decreases s.len(),
{
    if s.len() > 0 {
        lemma_trim_front_all_space(s.drop_first());
    } else {
        assert(s =~= Seq::<char>::empty());
    }
}

proof fn lemma_trim_front_append_nonspace(s: Seq<char>, post: Seq<char>)
    requires
        exists|k: int| 0 <= k < s.len() && !is_space(s[k]),
    ensures
        trim_front(s + post) == trim_front(s) + post,
    decreases s.len(),
{
    let k = choose|k: int| 0 <= k < s.len() && !is_space(s[k]);
    if is_space(s[0]) {
        assert(!is_space(s.drop_first()[k - 1]));
        assert((s + post).drop_first() =~= s.drop_first() + post);
        lemma_trim_front_append_nonspace(s.drop_first(), post);
    } else {
        assert((s + post)[0] == s[0]);
    }
}

/// Surrounding whitespace never reaches the trimmed line.
proof fn lemma_trim_spec_pad(pre: Seq<char>, s: Seq<char>, post: Seq<char>)
    requires
        forall|k: int| 0 <= k < pre.len() ==> is_space(pre[k]),
        forall|k: int| 0 <= k < post.len() ==> is_space(post[k]),
    ensures
        trim_spec(pre + s + post) == trim_spec(s),
{
    assert(pre + s + post =~= pre + (s + post));
    lemma_trim_front_pad(pre, s + post);
    if exists|k: int| 0 <= k < s.len() && !is_space(s[k]) {
        lemma_trim_front_append_nonspace(s, post);
        lemma_trim_back_pad(trim_front(s), post);
    } else {
        assert(forall|k: int|
            0 <= k < (s + post).len() ==> is_space((s + post)[k]));
        lemma_trim_front_all_space(s + post);
        lemma_trim_front_all_space(s);
    }
}

/// Law: every casing or whitespace variant of a line shares its canonical
/// form — normalizing the line with any letters' case changed and any
/// whitespace around it gives the same result as normalizing the line.
pub proof fn lemma_variant_normalizes_alike(
    line: Seq<char>,
    pre: Seq<char>,
    recased: Seq<char>,
    post: Seq<char>,
)
    requires
        forall|k: int| 0 <= k < pre.len() ==> is_space(pre[k]),
        forall|k: int| 0 <= k < post.len() ==> is_space(post[k]),
        case_variant(recased, line),
    ensures
        normalize_spec(pre + recased + post) == normalize_spec(line),
{
    lemma_trim_spec_pad(pre, recased, post);
    lemma_case_variant_same_canonical(recased, line);
}

/// How one guess resolves. `Won` takes precedence over `Lost`: a correct
/// guess on the last attempt wins.
#[derive(Clone, Copy, Debug, PartialEq, Eq, Structural)]
pub enum Status {
    /// The guess equals the target.
    Won,
    /// The guess was wrong and it was the last allowed attempt.
    Lost,
    /// The guess was wrong and attempts remain.
    Continue,
}

/// What one call of [`Game::step`] did with the input line.
#[derive(Debug)]
pub enum StepResult {
    /// The line normalized to the quit sentinel; the session is over and no
    /// attempt was charged.
    Quit,
    /// The line did not have the required length; no attempt was charged.
    Invalid,
    /// The line was a well-formed guess: an attempt was charged and the guess
    /// was scored.
    Scored { feedback: Vec<Feedback>, status: Status },
}

/// The spec-level resolution of one input line against a session state.
#[derive(Clone, Copy, Debug, PartialEq, Eq, Structural)]
pub enum Outcome {
    Quit,
    Invalid,
    Won,
    Lost,
    Continue,
}

/// What one input line does to a session with the given target, attempt
/// limit, and attempts already used.
pub open spec fn step_outcome(target: Seq<char>, max: u32, attempts: u32, raw: Seq<char>) -> Outcome {
    let norm = normalize_spec(raw);
    if norm == quit_word() {
        Outcome::Quit
    } else if norm.len() != WORD_LEN {
        Outcome::Invalid
    } else if norm == target {
        Outcome::Won
    } else if attempts + 1 >= max {
        Outcome::Lost
    } else {
        Outcome::Continue
    }
}

/// Whether an executable step result reflects a spec-level outcome.
pub open spec fn reflects(r: StepResult, oc: Outcome) -> bool {
    match oc {
        Outcome::Quit => r is Quit,
        Outcome::Invalid => r is Invalid,
        Outcome::Won => r matches StepResult::Scored { status: Status::Won, .. },
        Outcome::Lost => r matches StepResult::Scored { status: Status::Lost, .. },
        Outcome::Continue => r matches StepResult::Scored { status: Status::Continue, .. },
    }
}

fn chars_eq(a: &Vec<char>, b: &Vec<char>) -> (r: bool)
    ensures
        r == (a@ == b@),
{
    if a.len() != b.len() {
        return false;
    }
    let n = a.len();
    let mut i: usize = 0;
    while i < n
        invariant
            i <= n,
            n == a@.len() == b@.len(),
            forall|k: int| 0 <= k < i ==> a@[k] == b@[k],
        decreases n - i,
    {
        if a[i] != b[i] {
            return false;
        }
        i = i + 1;
    }
    proof {
        assert(a@ =~= b@);
    }
    true
}

fn is_quit(w: &Vec<char>) -> (r: bool)
    ensures
        r == (w@ == quit_word()),
{
    let r = w.len() == 4 && w[0] == 'Q' && w[1] == 'U' && w[2] == 'I' && w[3] == 'T';
    proof {
        if r {
            assert(w@ =~= quit_word());
        }
    }
    r
}

/// One guessing-game session: a fixed target word, a fixed attempt limit,
/// and the count of attempts used so far.
pub struct Game {
    target: Vec<char>,
    max_attempts: u32,
    attempts: u32,
}

impl Game {
    /// The target word.
    pub closed spec fn target_spec(self) -> Seq<char> {
        self.target@
    }

    /// The attempt limit.
    pub closed spec fn max_spec(self) -> u32 {
        self.max_attempts
    }

    /// Attempts used so far.
    pub closed spec fn attempts_spec(self) -> u32 {
        self.attempts
    }

    /// A session is well formed when its target has the guess length and its
    /// attempt count never passes the limit.
    pub closed spec fn wf(self) -> bool {
        self.target@.len() == WORD_LEN && self.attempts <= self.max_attempts
    }

    /// A fresh session: no attempts used.
    pub fn new(target: Vec<char>, max_attempts: u32) -> (g: Game)
        requires
            target@.len() == WORD_LEN,
            max_attempts >= 1,
        ensures
            g.wf(),
            g.target_spec() == target@,
            g.max_spec() == max_attempts,
            g.attempts_spec() == 0,
    {
        Game { target, max_attempts, attempts: 0 }
    }

    /// Attempts used so far.
    pub fn attempts(&self) -> (r: u32)
        ensures
            r == self.attempts_spec(),
    {
        self.attempts
    }

    /// The attempt limit.
    pub fn max_attempts(&self) -> (r: u32)
        ensures
            r == self.max_spec(),
    {
        self.max_attempts
    }

    /// Feeds one raw input line to the session.
    ///
    /// The line is normalized first. The quit sentinel and a line of the
    /// wrong length charge no attempt; any other line charges exactly one
    /// attempt and is scored against the target, winning on equality and
    /// losing when this attempt was the last one allowed.
    pub fn step(&mut self, raw: &Vec<char>) -> (r: StepResult)
        requires
            old(self).wf(),
            old(self).attempts_spec() < old(self).max_spec(),
        ensures
            final(self).wf(),
            final(self).target_spec() == old(self).target_spec(),
            final(self).max_spec() == old(self).max_spec(),
            reflects(
                r,
                step_outcome(
                    old(self).target_spec(),
                    old(self).max_spec(),
                    old(self).attempts_spec(),
                    raw@,
                ),
            ),
            (r is Quit || r is Invalid) ==> final(self).attempts_spec() == old(
                self,
            ).attempts_spec(),
            (r is Scored) ==> final(self).attempts_spec() == old(self).attempts_spec() + 1,
            (r matches StepResult::Scored { feedback, .. } ==> feedback@ == score_spec(
                normalize_spec(raw@),
                old(self).target_spec(),
            )),
    {
        let norm = normalize(raw);
        if is_quit(&norm) {
            return StepResult::Quit;
        }
        if norm.len() != WORD_LEN {
            return StepResult::Invalid;
        }
        self.attempts = self.attempts + 1;
        let feedback = score(&norm, &self.target);
        let status = if chars_eq(&norm, &self.target) {
            Status::Won
        } else if self.attempts >= self.max_attempts {
            Status::Lost
        } else {
            Status::Continue
        };
        StepResult::Scored { feedback, status }
    }
}

/// How a session ends after a whole run of input lines, or `Unfinished` when
/// the lines run out first. Each line resolves as in [`step_outcome`]; only a
/// scored guess moves the attempt counter.
#[derive(Clone, Copy, Debug, PartialEq, Eq, Structural)]
pub enum SessionEnd {
    Quit,
    Won,
    Lost,
    Unfinished,
}

/// Runs a whole sequence of input lines through [`step_outcome`], starting
/// from the given attempt count.
pub open spec fn session_end(target: Seq<char>, max: u32, attempts: u32, inputs: Seq<Seq<char>>) -> SessionEnd
    decreases inputs.len(),
{
    if inputs.len() == 0 {
        SessionEnd::Unfinished
    } else {
        match step_outcome(target, max, attempts, inputs[0]) {
            Outcome::Quit => SessionEnd::Quit,
            Outcome::Won => SessionEnd::Won,
            Outcome::Lost => SessionEnd::Lost,
            Outcome::Invalid => session_end(target, max, attempts, inputs.drop_first()),
            Outcome::Continue => session_end(
                target,
                max,
                (attempts + 1) as u32,
                inputs.drop_first(),
            ),
        }
    }
}

/// Law: as many consecutive well-formed, non-winning guesses as attempts
/// remain end the session in the Lost state.
pub proof fn lemma_lost_after_max_attempts(
    target: Seq<char>,
    max: u32,
    attempts: u32,
    inputs: Seq<Seq<char>>,
)
    requires
        attempts < max,
        inputs.len() == max - attempts,
        forall|k: int|
            0 <= k < inputs.len() ==> {
                let norm = #[trigger] normalize_spec(inputs[k]);
                norm != quit_word() && norm.len() == WORD_LEN && norm != target
            },
    ensures
        session_end(target, max, attempts, inputs) == SessionEnd::Lost,
    decreases inputs.len(),
{
    assert(normalize_spec(inputs[0]) != quit_word());
    if attempts + 1 < max {
        assert(forall|k: int|
            0 <= k < inputs.drop_first().len() ==> #[trigger] inputs.drop_first()[k] == inputs[k
                + 1]);
        lemma_lost_after_max_attempts(target, max, (attempts + 1) as u32, inputs.drop_first());
    }
}

/// Law: an input line that normalizes to the quit sentinel ends the session
/// at once, whatever attempts were used before.
pub proof fn lemma_quit_ends_session(
    target: Seq<char>,
    max: u32,
    attempts: u32,
    inputs: Seq<Seq<char>>,
)
    requires
        inputs.len() > 0,
        normalize_spec(inputs[0]) == quit_word(),
    ensures
        session_end(target, max, attempts, inputs) == SessionEnd::Quit,
{
}

} // verus!
