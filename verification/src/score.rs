//! Scorer: estimates how much a candidate guess narrows the remaining set,
//! by summing the split each feedback pattern would produce.

use vstd::prelude::*;
use vstd::arithmetic::div_mod::lemma_div_nonincreasing;
use vstd::arithmetic::div_mod::lemma_div_pos_is_pos;
use crate::marks::Mark;
use crate::marks::SolverError;
use crate::filter::filtered;
use crate::filter::views;
use crate::filter::filter;
use crate::filter::lemma_filtered_len;
use crate::filter::lemma_filtered_keeps;
use crate::feedback::feedback_of;
use crate::feedback::lemma_feedback_round_trip;
use crate::patterns::pow3;
use crate::patterns::pattern_of_index;
use crate::patterns::lemma_pattern_space_complete;

verus! {

/// Sum over the first `k` patterns of how many candidates the filter keeps.
pub open spec fn sum_kept_upto(
    words: Seq<Seq<char>>,
    guess: Seq<char>,
    patterns: Seq<Seq<Mark>>,
    k: int,
) -> int
    decreases k,
{
    if k <= 0 {
        0
    } else {
        sum_kept_upto(words, guess, patterns, k - 1) + filtered(words, guess, patterns[k - 1]).len()
    }
}

/// Sum over the first `k` patterns of `kept * (|words| - kept)`, the split
/// the guess would produce under each pattern.
pub open spec fn sum_split_upto(
    words: Seq<Seq<char>>,
    guess: Seq<char>,
    patterns: Seq<Seq<Mark>>,
    k: int,
) -> int
    decreases k,
{
    if k <= 0 {
        0
    } else {
        let kept = filtered(words, guess, patterns[k - 1]).len() as int;
        sum_split_upto(words, guess, patterns, k - 1) + kept * (words.len() - kept)
    }
}

/// What the Scorer returns for a guess: the split sum divided (integer,
/// truncating) by the kept sum, or `DegenerateScore` when the kept sum is
/// zero.
pub open spec fn scored(guess: Seq<char>, words: Seq<Seq<char>>, patterns: Seq<Seq<Mark>>) -> Result<
    u64,
    SolverError,
> {
    let sk = sum_kept_upto(words, guess, patterns, patterns.len() as int);
    let ss = sum_split_upto(words, guess, patterns, patterns.len() as int);
    if sk == 0 {
        Err(SolverError::DegenerateScore)
    } else {
        Ok(((ss / sk) as u64))
    }
}

/// Both running sums stay within `k * n` and `k * n * n`.
pub proof fn lemma_sum_bounds(
    words: Seq<Seq<char>>,
    guess: Seq<char>,
    patterns: Seq<Seq<Mark>>,
    k: int,
)
    requires
        0 <= k,
    ensures
        0 <= sum_kept_upto(words, guess, patterns, k) <= k * words.len(),
        0 <= sum_split_upto(words, guess, patterns, k) <= k * words.len() * words.len(),
    decreases k,
{
    let n = words.len() as int;
    if k == 0 {
        assert(0 * n == 0) by (nonlinear_arith);
        assert(0 * n * n == 0) by (nonlinear_arith);
    } else {
        lemma_sum_bounds(words, guess, patterns, k - 1);
        let kept = filtered(words, guess, patterns[k - 1]).len() as int;
        lemma_filtered_len(words, guess, patterns[k - 1], n);
        assert(0 <= kept <= n);
        assert(0 <= kept * (n - kept) <= n * n) by (nonlinear_arith)
            requires
                0 <= kept <= n,
        ;
        assert((k - 1) * n + n == k * n) by (nonlinear_arith);
        assert((k - 1) * n * n + n * n == k * n * n) by (nonlinear_arith);
    }
}

/// The kept sum dominates each of its terms.
proof fn lemma_sum_kept_term_lower(
    words: Seq<Seq<char>>,
    guess: Seq<char>,
    patterns: Seq<Seq<Mark>>,
    j: int,
    k: int,
)
    requires
        0 <= j < k,
    ensures
        sum_kept_upto(words, guess, patterns, k) >= filtered(words, guess, patterns[j]).len(),
    decreases k,
{
    if j == k - 1 {
        lemma_sum_bounds(words, guess, patterns, k - 1);
    } else {
        lemma_sum_kept_term_lower(words, guess, patterns, j, k - 1);
        lemma_filtered_len(words, guess, patterns[k - 1], words.len() as int);
    }
}

/// Law (the Scorer is total on real inputs): scoring any guess of the
/// puzzle's length against a non-empty candidate set over the full pattern
/// space never degenerates — the true feedback of any one candidate is a
/// pattern of the space, and that candidate survives it, so the kept sum
/// is positive.
pub proof fn lemma_score_defined(
    guess: Seq<char>,
    words: Seq<Seq<char>>,
    patterns: Seq<Seq<Mark>>,
    length: nat,
)
    requires
        words.len() > 0,
        guess.len() == length,
        forall|i: int| 0 <= i < words.len() ==> (#[trigger] words[i]).len() == length,
        patterns.len() == pow3(length),
        forall|i: int| 0 <= i < patterns.len() ==> #[trigger] patterns[i] == pattern_of_index(
            i,
            length,
        ),
    ensures
        scored(guess, words, patterns) is Ok,
{
    let secret = words[0];
    let fb = feedback_of(secret, guess);
    assert(fb.len() == length);
    lemma_pattern_space_complete(fb, length);
    let j = choose|j: int| 0 <= j < pow3(length) && #[trigger] pattern_of_index(j, length) == fb;
    assert(patterns[j] == fb);
    lemma_feedback_round_trip(secret, guess);
    lemma_filtered_keeps(words, guess, fb, 0, words.len() as int);
    let t = choose|t: int|
        0 <= t < filtered(words, guess, fb).len() && filtered(words, guess, fb)[t] == secret;
    assert(filtered(words, guess, patterns[j]).len() >= 1);
    lemma_sum_kept_term_lower(words, guess, patterns, j, patterns.len() as int);
    assert(sum_kept_upto(words, guess, patterns, patterns.len() as int) >= 1);
}

/// Scorer: for each pattern of the pattern space, the number of candidates
/// that would survive the Candidate Filter, accumulated as `sum_split +=
/// kept * (|candidates| - kept)` and `sum_kept += kept`; the score is
/// `sum_split / sum_kept` (integer, truncating division). Fails with
/// `DegenerateScore` instead of dividing by zero.
pub fn score(guess: &Vec<char>, candidates: &Vec<Vec<char>>, pattern_space: &Vec<Vec<Mark>>) -> (r:
    Result<u64, SolverError>)
    requires
        forall|i: int| 0 <= i < candidates@.len() ==> (#[trigger] candidates@[i])@.len()
            == guess@.len(),
        forall|j: int| 0 <= j < pattern_space@.len() ==> (#[trigger] pattern_space@[j])@.len()
            == guess@.len(),
        pattern_space@.len() * candidates@.len() * candidates@.len() <= u64::MAX,
    ensures
        r == scored(guess@, views(candidates@), views(pattern_space@)),
{
    let ghost w = views(candidates@);
    let ghost ps = views(pattern_space@);
    let ghost pt = pattern_space@.len() as int;
    let n = candidates.len();
    proof {
        assert(w.len() == n && ps.len() == pt);
        assert(pt * n * n <= u64::MAX);
    }
    let mut sum_kept: u64 = 0;
    let mut sum_split: u64 = 0;
    let mut j: usize = 0;
    while j < pattern_space.len()
        invariant
            0 <= j <= pt,
            ps == views(pattern_space@),
            w == views(candidates@),
            pt == pattern_space@.len() as int,
            n == candidates@.len(),
            w.len() == n,
            ps.len() == pt,
            forall|i: int| 0 <= i < candidates@.len() ==> (#[trigger] candidates@[i])@.len()
                == guess@.len(),
            forall|t: int| 0 <= t < pattern_space@.len() ==> (#[trigger] pattern_space@[t])@.len()
                == guess@.len(),
            pt * n * n <= u64::MAX,
            sum_kept == sum_kept_upto(w, guess@, ps, j as int),
            sum_split == sum_split_upto(w, guess@, ps, j as int),
        decreases pt - j,
    {
        let kept_words = filter(candidates, guess, &pattern_space[j]);
        let kept = kept_words.len();
        proof {
            assert(views(kept_words@).len() == kept_words@.len());
            assert(ps[j as int] == pattern_space@[j as int]@);
            assert(kept == filtered(w, guess@, ps[j as int]).len());
            lemma_filtered_len(w, guess@, ps[j as int], n as int);
            lemma_sum_bounds(w, guess@, ps, j as int);
            assert(sum_kept + kept <= (j + 1) * n && (kept as int) * ((n - kept) as int) <= n * n
                && sum_split + (kept as int) * ((n - kept) as int) <= (j + 1) * (n as int) * (
            n as int)) by (nonlinear_arith)
                requires
                    0 <= kept <= n,
                    0 <= j,
                    sum_kept <= (j as int) * n,
                    sum_split <= (j as int) * (n as int) * (n as int),
            ;
            assert((j + 1) * (n as int) <= pt * (n as int) * (n as int) || n == 0)
                by (nonlinear_arith)
                requires
                    0 <= n,
                    j + 1 <= pt,
            ;
            assert((j + 1) * (n as int) * (n as int) <= pt * (n as int) * (n as int))
                by (nonlinear_arith)
                requires
                    0 <= n,
                    j + 1 <= pt,
            ;
        }
        sum_kept = sum_kept + (kept as u64);
        sum_split = sum_split + (kept as u64) * ((n - kept) as u64);
        j += 1;
    }
    if sum_kept == 0 {
        Err(SolverError::DegenerateScore)
    } else {
        proof {
            lemma_sum_bounds(w, guess@, ps, pt);
            lemma_div_pos_is_pos(sum_split as int, sum_kept as int);
            lemma_div_nonincreasing(sum_split as int, sum_kept as int);
        }
        Ok(sum_split / sum_kept)
    }
}

} // verus!
