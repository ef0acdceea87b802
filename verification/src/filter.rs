//! Candidate Filter: decides which candidate words remain consistent with
//! the feedback observed for one guess, with exact duplicate-letter count
//! semantics.

use vstd::prelude::*;
use crate::marks::Mark;

verus! {

/// Occurrences of `c` among the first `k` letters of `w`.
pub open spec fn count_upto(w: Seq<char>, c: char, k: int) -> int
    decreases k,
{
    if k <= 0 {
        0
    } else {
        count_upto(w, c, k - 1) + if w[k - 1] == c {
            1int
        } else {
            0int
        }
    }
}

/// Occurrences of `c` in the whole word `w`.
pub open spec fn count_of(w: Seq<char>, c: char) -> int {
    count_upto(w, c, w.len() as int)
}

/// Among the first `k` slots, how many carry mark `m` for guess letter `c`.
pub open spec fn marked_count_upto(
    guess: Seq<char>,
    pattern: Seq<Mark>,
    m: Mark,
    c: char,
    k: int,
) -> int
    decreases k,
{
    if k <= 0 {
        0
    } else {
        marked_count_upto(guess, pattern, m, c, k - 1) + if pattern[k - 1] == m && guess[k - 1]
            == c {
            1int
        } else {
            0int
        }
    }
}

/// How many copies of `c` the feedback confirms are in the word: its
/// `Exact` and `PresentElsewhere` marks combined.
pub open spec fn confirmed_count(guess: Seq<char>, pattern: Seq<Mark>, c: char) -> int {
    marked_count_upto(guess, pattern, Mark::Exact, c, guess.len() as int) + marked_count_upto(
        guess,
        pattern,
        Mark::PresentElsewhere,
        c,
        guess.len() as int,
    )
}

/// What slot `i` of the feedback demands of a retained word:
/// - `Exact`: the word has exactly the guessed letter at this position;
/// - `PresentElsewhere`: the word contains the letter, but not here;
/// - `Absent`: the word holds exactly as many copies of the letter as the
///   feedback confirms elsewhere (zero when the letter is only grey) — the
///   count-reconciliation rule that makes repeated letters come out right.
pub open spec fn consistent_at(
    word: Seq<char>,
    guess: Seq<char>,
    pattern: Seq<Mark>,
    i: int,
) -> bool {
    match pattern[i] {
        Mark::Exact => word[i] == guess[i],
        Mark::PresentElsewhere => word[i] != guess[i] && count_of(word, guess[i]) > 0,
        Mark::Absent => count_of(word, guess[i]) == confirmed_count(guess, pattern, guess[i]),
    }
}

/// A word stays in the candidate set iff every slot's demand holds.
pub open spec fn consistent(word: Seq<char>, guess: Seq<char>, pattern: Seq<Mark>) -> bool {
    forall|i: int| 0 <= i < pattern.len() ==> #[trigger] consistent_at(word, guess, pattern, i)
}

/// The words among the first `k` candidates that remain consistent, in
/// their original order.
pub open spec fn filtered_upto(
    words: Seq<Seq<char>>,
    guess: Seq<char>,
    pattern: Seq<Mark>,
    k: int,
) -> Seq<Seq<char>>
    decreases k,
{
    if k <= 0 {
        Seq::empty()
    } else {
        let rest = filtered_upto(words, guess, pattern, k - 1);
        if consistent(words[k - 1], guess, pattern) {
            rest.push(words[k - 1])
        } else {
            rest
        }
    }
}

/// The stable filter of a whole candidate set.
pub open spec fn filtered(words: Seq<Seq<char>>, guess: Seq<char>, pattern: Seq<Mark>) -> Seq<
    Seq<char>,
> {
    filtered_upto(words, guess, pattern, words.len() as int)
}

/// The views of a sequence of words.
pub open spec fn views<T>(s: Seq<Vec<T>>) -> Seq<Seq<T>> {
    s.map_values(|v: Vec<T>| v@)
}

/// Law (filter monotonicity): elimination never grows the candidate set.
pub proof fn lemma_filtered_len(words: Seq<Seq<char>>, guess: Seq<char>, pattern: Seq<Mark>, k: int)
    requires
        0 <= k <= words.len(),
    ensures
        0 <= filtered_upto(words, guess, pattern, k).len() <= k,
    decreases k,
{
    if k > 0 {
        lemma_filtered_len(words, guess, pattern, k - 1);
    }
}

/// Every retained word is one of the original candidates, and it is
/// consistent with the feedback.
pub proof fn lemma_filtered_member(
    words: Seq<Seq<char>>,
    guess: Seq<char>,
    pattern: Seq<Mark>,
    k: int,
    t: int,
)
    requires
        0 <= k <= words.len(),
        0 <= t < filtered_upto(words, guess, pattern, k).len(),
    ensures
        exists|i: int|
            0 <= i < k && #[trigger] words[i] == filtered_upto(words, guess, pattern, k)[t]
                && consistent(words[i], guess, pattern),
    decreases k,
{
    let prev = filtered_upto(words, guess, pattern, k - 1);
    let cur = filtered_upto(words, guess, pattern, k);
    if t < prev.len() {
        lemma_filtered_member(words, guess, pattern, k - 1, t);
        let i = choose|i: int|
            0 <= i < k - 1 && #[trigger] words[i] == filtered_upto(words, guess, pattern, k - 1)[t]
                && consistent(words[i], guess, pattern);
        assert(cur[t] == prev[t]);
        assert(0 <= i < k && words[i] == cur[t] && consistent(words[i], guess, pattern));
    } else {
        assert(consistent(words[k - 1], guess, pattern));
        assert(cur[t] == words[k - 1]);
        assert(0 <= k - 1 < k && words[k - 1] == cur[t] && consistent(words[k - 1], guess, pattern));
    }
}

/// A consistent candidate is never discarded by the filter.
pub proof fn lemma_filtered_keeps(
    words: Seq<Seq<char>>,
    guess: Seq<char>,
    pattern: Seq<Mark>,
    i: int,
    k: int,
)
    requires
        0 <= i < k <= words.len(),
        consistent(words[i], guess, pattern),
    ensures
        filtered_upto(words, guess, pattern, k).contains(words[i]),
    decreases k,
{
    let cur = filtered_upto(words, guess, pattern, k);
    if i == k - 1 {
        let rest = filtered_upto(words, guess, pattern, k - 1);
        assert(cur == rest.push(words[k - 1]));
        assert(cur[rest.len() as int] == words[i]);
    } else {
        lemma_filtered_keeps(words, guess, pattern, i, k - 1);
        let rest = filtered_upto(words, guess, pattern, k - 1);
        let t = choose|t: int| 0 <= t < rest.len() && rest[t] == words[i];
        assert(cur[t] == words[i]);
    }
}

/// An inconsistent candidate strictly shrinks the filter's result.
pub proof fn lemma_filtered_strict(
    words: Seq<Seq<char>>,
    guess: Seq<char>,
    pattern: Seq<Mark>,
    i: int,
    k: int,
)
    requires
        0 <= i < k <= words.len(),
        !consistent(words[i], guess, pattern),
    ensures
        filtered_upto(words, guess, pattern, k).len() < k,
    decreases k,
{
    if i == k - 1 {
        lemma_filtered_len(words, guess, pattern, k - 1);
    } else {
        lemma_filtered_strict(words, guess, pattern, i, k - 1);
    }
}

/// Counts the occurrences of `c` in `w`.
pub fn count_char(w: &Vec<char>, c: char) -> (r: usize)
    ensures
        r == count_of(w@, c),
{
    let mut r: usize = 0;
    let mut i: usize = 0;
    while i < w.len()
        invariant
            0 <= i <= w@.len(),
            r == count_upto(w@, c, i as int),
            r <= i,
        decreases w@.len() - i,
    {
        if w[i] == c {
            r += 1;
        }
        i += 1;
    }
    r
}

/// Counts how many copies of `c` the feedback confirms are in the word.
pub fn confirmed(guess: &Vec<char>, pattern: &Vec<Mark>, c: char) -> (r: usize)
    requires
        guess@.len() == pattern@.len(),
    ensures
        r == confirmed_count(guess@, pattern@, c),
{
    let mut r: usize = 0;
    let mut i: usize = 0;
    while i < guess.len()
        invariant
            0 <= i <= guess@.len(),
            guess@.len() == pattern@.len(),
            r == marked_count_upto(guess@, pattern@, Mark::Exact, c, i as int) + marked_count_upto(
                guess@,
                pattern@,
                Mark::PresentElsewhere,
                c,
                i as int,
            ),
            r <= i,
        decreases guess@.len() - i,
    {
        let is_hit = guess[i] == c && (matches!(pattern[i], Mark::Exact) || matches!(
            pattern[i],
            Mark::PresentElsewhere,
        ));
        if is_hit {
            r += 1;
        }
        i += 1;
    }
    r
}

/// Decides whether one candidate word stays consistent with the feedback
/// recorded for `guess`.
pub fn word_consistent(word: &Vec<char>, guess: &Vec<char>, pattern: &Vec<Mark>) -> (r: bool)
    requires
        word@.len() == guess@.len(),
        guess@.len() == pattern@.len(),
    ensures
        r == consistent(word@, guess@, pattern@),
{
    let mut i: usize = 0;
    while i < pattern.len()
        invariant
            0 <= i <= pattern@.len(),
            word@.len() == guess@.len(),
            guess@.len() == pattern@.len(),
            forall|j: int| 0 <= j < i ==> #[trigger] consistent_at(word@, guess@, pattern@, j),
        decreases pattern@.len() - i,
    {
        let ok = match pattern[i] {
            Mark::Exact => word[i] == guess[i],
            Mark::PresentElsewhere => word[i] != guess[i] && count_char(word, guess[i]) > 0,
            Mark::Absent => count_char(word, guess[i]) == confirmed(guess, pattern, guess[i]),
        };
        if !ok {
            assert(!consistent_at(word@, guess@, pattern@, i as int));
            return false;
        }
        assert(consistent_at(word@, guess@, pattern@, i as int));
        i += 1;
    }
    true
}

/// Copies a word element by element.
pub fn copy_word(w: &Vec<char>) -> (r: Vec<char>)
    ensures
        r@ == w@,
{
    let mut r: Vec<char> = Vec::new();
    let mut i: usize = 0;
    while i < w.len()
        invariant
            0 <= i <= w@.len(),
            r@ == w@.subrange(0, i as int),
        decreases w@.len() - i,
    {
        r.push(w[i]);
        assert(r@ =~= w@.subrange(0, i + 1 as int));
        i += 1;
    }
    assert(r@ =~= w@);
    r
}

/// `views` distributes over `push`.
proof fn lemma_views_push<T>(s: Seq<Vec<T>>, v: Vec<T>)
    ensures
        views(s.push(v)) == views(s).push(v@),
{
    assert(views(s.push(v)) =~= views(s).push(v@));
}

/// Candidate Filter: keeps, in their original order, exactly the candidate
/// words that remain consistent with the feedback `pattern` recorded for
/// `guess`. Never grows the candidate set, and never mutates its input.
pub fn filter(candidates: &Vec<Vec<char>>, guess: &Vec<char>, pattern: &Vec<Mark>) -> (r: Vec<
    Vec<char>,
>)
    requires
        guess@.len() == pattern@.len(),
        forall|i: int| 0 <= i < candidates@.len() ==> (#[trigger] candidates@[i])@.len()
            == guess@.len(),
    ensures
        views(r@) == filtered(views(candidates@), guess@, pattern@),
        r@.len() <= candidates@.len(),
{
    let mut out: Vec<Vec<char>> = Vec::new();
    let mut i: usize = 0;
    while i < candidates.len()
        invariant
            0 <= i <= candidates@.len(),
            guess@.len() == pattern@.len(),
            forall|j: int| 0 <= j < candidates@.len() ==> (#[trigger] candidates@[j])@.len()
                == guess@.len(),
            views(out@) == filtered_upto(views(candidates@), guess@, pattern@, i as int),
            out@.len() <= i,
        decreases candidates@.len() - i,
    {
        assert(views(candidates@)[i as int] == candidates@[i as int]@);
        if word_consistent(&candidates[i], guess, pattern) {
            let w = copy_word(&candidates[i]);
            proof {
                lemma_views_push(out@, w);
            }
            out.push(w);
        }
        i += 1;
    }
    out
}

} // verus!
