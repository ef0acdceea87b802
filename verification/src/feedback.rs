//! The ghost model of authentic puzzle feedback: which pattern the true
//! secret word produces against a guess, and the laws tying that pattern to
//! the Candidate Filter — filtering never discards the true secret, and a
//! wrong guess never survives its own feedback.

use vstd::prelude::*;
use crate::marks::Mark;
use crate::filter::count_upto;
use crate::filter::count_of;
use crate::filter::marked_count_upto;
use crate::filter::confirmed_count;
use crate::filter::consistent_at;
use crate::filter::consistent;
use crate::filter::filtered;
use crate::filter::lemma_filtered_keeps;
use crate::filter::lemma_filtered_strict;

verus! {

/// Among the first `k` slots, how many carry letter `c` in the guess and
/// match the secret exactly (green slots for `c`).
pub open spec fn green_upto(guess: Seq<char>, secret: Seq<char>, c: char, k: int) -> int
    decreases k,
{
    if k <= 0 {
        0
    } else {
        green_upto(guess, secret, c, k - 1) + if guess[k - 1] == c && secret[k - 1] == guess[k
            - 1] {
            1int
        } else {
            0int
        }
    }
}

/// Among the first `k` slots, how many carry letter `c` in the guess but do
/// not match the secret (non-green slots for `c`).
pub open spec fn nongreen_upto(guess: Seq<char>, secret: Seq<char>, c: char, k: int) -> int
    decreases k,
{
    if k <= 0 {
        0
    } else {
        nongreen_upto(guess, secret, c, k - 1) + if guess[k - 1] == c && secret[k - 1] != guess[k
            - 1] {
            1int
        } else {
            0int
        }
    }
}

/// How many non-green copies of `c` in the guess can still be marked
/// yellow: the secret's copies of `c` not already matched exactly.
pub open spec fn yellow_budget(secret: Seq<char>, guess: Seq<char>, c: char) -> int {
    count_of(secret, c) - green_upto(guess, secret, c, guess.len() as int)
}

/// The mark slot `i` receives when `guess` is played against `secret`:
/// green on an exact match; otherwise yellow while earlier non-green copies
/// of the letter have not used up the budget; otherwise grey.
pub open spec fn feedback_mark(secret: Seq<char>, guess: Seq<char>, i: int) -> Mark {
    if guess[i] == secret[i] {
        Mark::Exact
    } else if nongreen_upto(guess, secret, guess[i], i) < yellow_budget(secret, guess, guess[i]) {
        Mark::PresentElsewhere
    } else {
        Mark::Absent
    }
}

/// The exact feedback pattern that the true secret word produces against a
/// guess.
pub open spec fn feedback_of(secret: Seq<char>, guess: Seq<char>) -> Seq<Mark> {
    Seq::new(guess.len(), |i: int| feedback_mark(secret, guess, i))
}

/// All the positional counters are non-negative.
proof fn lemma_counts_nonneg(guess: Seq<char>, secret: Seq<char>, c: char, k: int)
    ensures
        green_upto(guess, secret, c, k) >= 0,
        nongreen_upto(guess, secret, c, k) >= 0,
        count_upto(secret, c, k) >= 0,
    decreases (if k <= 0 { 0int } else { k }),
{
    if k > 0 {
        lemma_counts_nonneg(guess, secret, c, k - 1);
    }
}

/// Green slots for `c` are occurrences of `c` in the secret, so there are
/// never more of the former.
proof fn lemma_green_le_count(guess: Seq<char>, secret: Seq<char>, c: char, k: int)
    ensures
        green_upto(guess, secret, c, k) <= count_upto(secret, c, k),
    decreases (if k <= 0 { 0int } else { k }),
{
    if k > 0 {
        lemma_green_le_count(guess, secret, c, k - 1);
    }
}

/// The yellow budget is never negative.
proof fn lemma_budget_nonneg(secret: Seq<char>, guess: Seq<char>, c: char)
    requires
        secret.len() == guess.len(),
    ensures
        yellow_budget(secret, guess, c) >= 0,
{
    lemma_green_le_count(guess, secret, c, guess.len() as int);
}

/// Every occurrence of `c` in the guess is green or non-green.
proof fn lemma_count_split(guess: Seq<char>, secret: Seq<char>, c: char, k: int)
    ensures
        count_upto(guess, c, k) == green_upto(guess, secret, c, k) + nongreen_upto(
            guess,
            secret,
            c,
            k,
        ),
    decreases (if k <= 0 { 0int } else { k }),
{
    if k > 0 {
        lemma_count_split(guess, secret, c, k - 1);
    }
}

/// `nongreen_upto` grows with its bound.
proof fn lemma_nongreen_monotone(guess: Seq<char>, secret: Seq<char>, c: char, k1: int, k2: int)
    requires
        k1 <= k2,
    ensures
        nongreen_upto(guess, secret, c, k1) <= nongreen_upto(guess, secret, c, k2),
    decreases (if k2 <= 0 { 0int } else { k2 }),
{
    if k2 > 0 && k1 < k2 {
        lemma_nongreen_monotone(guess, secret, c, k1, k2 - 1);
    }
}

/// In the true feedback, the `Exact` marks for `c` are exactly the green
/// slots for `c`.
proof fn lemma_exact_marks(secret: Seq<char>, guess: Seq<char>, c: char, k: int)
    requires
        secret.len() == guess.len(),
        k <= guess.len(),
    ensures
        marked_count_upto(guess, feedback_of(secret, guess), Mark::Exact, c, k) == green_upto(
            guess,
            secret,
            c,
            k,
        ),
    decreases (if k <= 0 { 0int } else { k }),
{
    if k > 0 {
        lemma_exact_marks(secret, guess, c, k - 1);
    }
}

/// In the true feedback, the `PresentElsewhere` marks for `c` number the
/// smaller of the non-green slots seen and the yellow budget.
proof fn lemma_yellow_marks(secret: Seq<char>, guess: Seq<char>, c: char, k: int)
    requires
        secret.len() == guess.len(),
        k <= guess.len(),
    ensures
        marked_count_upto(guess, feedback_of(secret, guess), Mark::PresentElsewhere, c, k) == (
        if nongreen_upto(guess, secret, c, k) <= yellow_budget(secret, guess, c) {
            nongreen_upto(guess, secret, c, k)
        } else {
            yellow_budget(secret, guess, c)
        }),
    decreases (if k <= 0 { 0int } else { k }),
{
    lemma_budget_nonneg(secret, guess, c);
    if k > 0 {
        lemma_yellow_marks(secret, guess, c, k - 1);
        lemma_counts_nonneg(guess, secret, c, k - 1);
    }
}

/// Law (filter consistency, round trip): the pattern that the true secret
/// produces against a guess never filters the secret itself out.
pub proof fn lemma_feedback_round_trip(secret: Seq<char>, guess: Seq<char>)
    requires
        secret.len() == guess.len(),
    ensures
        consistent(secret, guess, feedback_of(secret, guess)),
{
    let p = feedback_of(secret, guess);
    assert forall|i: int| 0 <= i < p.len() implies #[trigger] consistent_at(
        secret,
        guess,
        p,
        i,
    ) by {
        let c = guess[i];
        let b = yellow_budget(secret, guess, c);
        lemma_budget_nonneg(secret, guess, c);
        lemma_counts_nonneg(guess, secret, c, i);
        if guess[i] == secret[i] {
            assert(p[i] == Mark::Exact);
        } else if nongreen_upto(guess, secret, c, i) < b {
            assert(p[i] == Mark::PresentElsewhere);
            assert(count_of(secret, c) == green_upto(guess, secret, c, guess.len() as int) + b);
            lemma_counts_nonneg(guess, secret, c, guess.len() as int);
            assert(count_of(secret, c) > 0);
        } else {
            assert(p[i] == Mark::Absent);
            lemma_exact_marks(secret, guess, c, guess.len() as int);
            lemma_yellow_marks(secret, guess, c, guess.len() as int);
            lemma_nongreen_monotone(guess, secret, c, i + 1, guess.len() as int);
            assert(nongreen_upto(guess, secret, c, i + 1) == nongreen_upto(guess, secret, c, i)
                + 1);
            assert(nongreen_upto(guess, secret, c, guess.len() as int) > b);
            assert(confirmed_count(guess, p, c) == green_upto(guess, secret, c, guess.len() as int)
                + b);
            assert(count_of(secret, c) == confirmed_count(guess, p, c));
        }
    }
}

/// Law (a wrong guess eliminates itself): when the guess is not the secret,
/// the guess is inconsistent with the very feedback it received.
pub proof fn lemma_feedback_eliminates_guess(secret: Seq<char>, guess: Seq<char>)
    requires
        secret.len() == guess.len(),
        secret != guess,
    ensures
        !consistent(guess, guess, feedback_of(secret, guess)),
{
    let p = feedback_of(secret, guess);
    if forall|i: int| 0 <= i < guess.len() ==> guess[i] == #[trigger] secret[i] {
        assert(secret =~= guess);
        assert(false);
    }
    let i = choose|i: int| 0 <= i < guess.len() && guess[i] != #[trigger] secret[i];
    let c = guess[i];
    let b = yellow_budget(secret, guess, c);
    lemma_budget_nonneg(secret, guess, c);
    if nongreen_upto(guess, secret, c, i) < b {
        assert(p[i] == Mark::PresentElsewhere);
        assert(!consistent_at(guess, guess, p, i));
    } else {
        assert(p[i] == Mark::Absent);
        lemma_exact_marks(secret, guess, c, guess.len() as int);
        lemma_yellow_marks(secret, guess, c, guess.len() as int);
        lemma_count_split(guess, secret, c, guess.len() as int);
        lemma_nongreen_monotone(guess, secret, c, i + 1, guess.len() as int);
        assert(nongreen_upto(guess, secret, c, i + 1) == nongreen_upto(guess, secret, c, i) + 1);
        assert(nongreen_upto(guess, secret, c, guess.len() as int) > b);
        assert(confirmed_count(guess, p, c) == green_upto(guess, secret, c, guess.len() as int)
            + b);
        assert(count_of(guess, c) > confirmed_count(guess, p, c));
        assert(!consistent_at(guess, guess, p, i));
    }
    assert(!consistent(guess, guess, p));
}

/// Law (round progress): one round of elimination with the true feedback
/// keeps the secret and, when the guessed candidate was wrong, strictly
/// shrinks the candidate set. With the Candidate Filter's monotonicity this
/// bounds a session by the dictionary's size.
pub proof fn lemma_round_progress(
    words: Seq<Seq<char>>,
    secret: Seq<char>,
    guess: Seq<char>,
    si: int,
    gi: int,
)
    requires
        0 <= si < words.len(),
        words[si] == secret,
        0 <= gi < words.len(),
        words[gi] == guess,
        secret.len() == guess.len(),
        secret != guess,
    ensures
        filtered(words, guess, feedback_of(secret, guess)).contains(secret),
        filtered(words, guess, feedback_of(secret, guess)).len() < words.len(),
{
    let p = feedback_of(secret, guess);
    lemma_feedback_round_trip(secret, guess);
    lemma_filtered_keeps(words, guess, p, si, words.len() as int);
    lemma_feedback_eliminates_guess(secret, guess);
    lemma_filtered_strict(words, guess, p, gi, words.len() as int);
}

} // verus!
