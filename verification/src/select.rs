//! Selector: scores every guessable word over the whole pattern space, in
//! parallel, and picks the maximizing one with a deterministic tie-break
//! toward words still in the candidate set.

use vstd::prelude::*;
use rayon::iter::IntoParallelRefIterator;
use rayon::iter::ParallelIterator;
use crate::marks::Mark;
use crate::marks::SolverError;
use crate::filter::views;
use crate::filter::copy_word;
use crate::score::score;
use crate::score::scored;

verus! {

/// Every guessable word received an actual score (no degenerate split sum).
pub open spec fn all_scored_ok(
    words: Seq<Seq<char>>,
    cands: Seq<Seq<char>>,
    pats: Seq<Seq<Mark>>,
) -> bool {
    forall|i: int| 0 <= i < words.len() ==> (#[trigger] scored(words[i], cands, pats)) is Ok
}

/// The score of the word at position `i`.
pub open spec fn score_val(
    words: Seq<Seq<char>>,
    cands: Seq<Seq<char>>,
    pats: Seq<Seq<Mark>>,
    i: int,
) -> int {
    scored(words[i], cands, pats)->Ok_0 as int
}

/// The selection comparator: a higher score wins; on an exact score tie, a
/// word in the candidate set beats one outside it.
pub open spec fn key_ge(s1: int, m1: bool, s2: int, m2: bool) -> bool {
    s1 > s2 || (s1 == s2 && (m1 || !m2))
}

/// The winning position among the first `k` words: the last one whose
/// (score, candidate-membership) key is greatest under the comparator.
pub open spec fn best_upto(
    words: Seq<Seq<char>>,
    cands: Seq<Seq<char>>,
    pats: Seq<Seq<Mark>>,
    k: int,
) -> int
    decreases k,
{
    if k <= 1 {
        0
    } else {
        let b = best_upto(words, cands, pats, k - 1);
        if key_ge(
            score_val(words, cands, pats, k - 1),
            cands.contains(words[k - 1]),
            score_val(words, cands, pats, b),
            cands.contains(words[b]),
        ) {
            k - 1
        } else {
            b
        }
    }
}

/// The winning position among all guessable words.
pub open spec fn best_index(
    words: Seq<Seq<char>>,
    cands: Seq<Seq<char>>,
    pats: Seq<Seq<Mark>>,
) -> int {
    best_upto(words, cands, pats, words.len() as int)
}

/// The winner's key beats every earlier key.
pub proof fn lemma_best_upto_maximal(
    words: Seq<Seq<char>>,
    cands: Seq<Seq<char>>,
    pats: Seq<Seq<Mark>>,
    k: int,
)
    requires
        k >= 1,
    ensures
        forall|i: int|
            0 <= i < k ==> key_ge(
                score_val(words, cands, pats, best_upto(words, cands, pats, k)),
                cands.contains(words[best_upto(words, cands, pats, k)]),
                #[trigger] score_val(words, cands, pats, i),
                cands.contains(words[i]),
            ),
    decreases k,
{
    if k > 1 {
        lemma_best_upto_maximal(words, cands, pats, k - 1);
    }
}

/// Law (tie-break determinism): the Selector's contract pins its result as
/// a function of (dictionary, candidates, pattern space) alone, so two runs
/// on identical inputs — however the scoring work was partitioned across
/// workers — return the identical word and score.
pub proof fn lemma_selection_deterministic(
    words: Seq<Seq<char>>,
    cands: Seq<Seq<char>>,
    pats: Seq<Seq<Mark>>,
    w1: Seq<char>,
    s1: int,
    w2: Seq<char>,
    s2: int,
)
    requires
        words.len() > 0,
        w1 == words[best_index(words, cands, pats)],
        s1 == score_val(words, cands, pats, best_index(words, cands, pats)),
        w2 == words[best_index(words, cands, pats)],
        s2 == score_val(words, cands, pats, best_index(words, cands, pats)),
    ensures
        w1 == w2,
        s1 == s2,
{
}

/// Compares two words letter by letter.
fn word_eq(a: &Vec<char>, b: &Vec<char>) -> (r: bool)
    ensures
        r == (a@ == b@),
{
    if a.len() != b.len() {
        return false;
    }
    let mut i: usize = 0;
    while i < a.len()
        invariant
            0 <= i <= a@.len(),
            a@.len() == b@.len(),
            forall|j: int| 0 <= j < i ==> a@[j] == b@[j],
        decreases a@.len() - i,
    {
        if a[i] != b[i] {
            return false;
        }
        i += 1;
    }
    proof {
        assert(a@ =~= b@);
    }
    true
}

/// Decides whether `w` is a member of the candidate set.
fn is_member(cands: &Vec<Vec<char>>, w: &Vec<char>) -> (r: bool)
    ensures
        r == views(cands@).contains(w@),
{
    let mut j: usize = 0;
    while j < cands.len()
        invariant
            0 <= j <= cands@.len(),
            forall|t: int| 0 <= t < j ==> views(cands@)[t] != w@,
        decreases cands@.len() - j,
    {
        if word_eq(&cands[j], w) {
            proof {
                assert(views(cands@)[j as int] == w@);
            }
            return true;
        }
        proof {
            assert(views(cands@)[j as int] == cands@[j as int]@);
        }
        j += 1;
    }
    proof {
        if views(cands@).contains(w@) {
            let t = choose|t: int| 0 <= t < views(cands@).len() && views(cands@)[t] == w@;
            assert(false);
        }
    }
    false
}

/// Relies on rayon's parallel iterator over a slice with `map` and
/// `collect`: an indexed parallel iterator, which applies the closure to
/// every element and collects the results in the input's order, however
/// the work is partitioned across worker threads.
#[verifier::external_body]
fn parallel_scores(
    words: &Vec<Vec<char>>,
    candidates: &Vec<Vec<char>>,
    pattern_space: &Vec<Vec<Mark>>,
    length: usize,
) -> (r: Vec<Result<u64, SolverError>>)
    requires
        forall|i: int| 0 <= i < words@.len() ==> (#[trigger] words@[i])@.len() == length,
        forall|i: int| 0 <= i < candidates@.len() ==> (#[trigger] candidates@[i])@.len() == length,
        forall|j: int| 0 <= j < pattern_space@.len() ==> (#[trigger] pattern_space@[j])@.len()
            == length,
        pattern_space@.len() * candidates@.len() * candidates@.len() <= u64::MAX,
    ensures
        r@.len() == words@.len(),
        forall|i: int| 0 <= i < r@.len() ==> r@[i] == scored(
            (#[trigger] words@[i])@,
            views(candidates@),
            views(pattern_space@),
        ),
{
    words.par_iter().map(|w| score(w, candidates, pattern_space)).collect()
}

/// Selector: scores every guessable word (not only remaining candidates)
/// against the candidate set over the whole pattern space, and returns the
/// word maximizing the score, ties broken toward candidate-set members and
/// then toward the later position — a deterministic comparator, so the
/// result does not depend on worker scheduling. Fails with
/// `EmptyDictionary` when there is nothing to guess, and propagates
/// `DegenerateScore` from the Scorer.
pub fn select_best(
    words: &Vec<Vec<char>>,
    candidates: &Vec<Vec<char>>,
    pattern_space: &Vec<Vec<Mark>>,
    length: usize,
) -> (r: Result<(Vec<char>, u64), SolverError>)
    requires
        forall|i: int| 0 <= i < words@.len() ==> (#[trigger] words@[i])@.len() == length,
        forall|i: int| 0 <= i < candidates@.len() ==> (#[trigger] candidates@[i])@.len() == length,
        forall|j: int| 0 <= j < pattern_space@.len() ==> (#[trigger] pattern_space@[j])@.len()
            == length,
        pattern_space@.len() * candidates@.len() * candidates@.len() <= u64::MAX,
    ensures
        r is Ok <==> (words@.len() > 0 && all_scored_ok(
            views(words@),
            views(candidates@),
            views(pattern_space@),
        )),
        words@.len() == 0 ==> r == Err::<(Vec<char>, u64), SolverError>(
            SolverError::EmptyDictionary,
        ),
        words@.len() > 0 && !all_scored_ok(views(words@), views(candidates@), views(pattern_space@))
            ==> r == Err::<(Vec<char>, u64), SolverError>(SolverError::DegenerateScore),
        r matches Ok(p) ==> p.0@ == views(words@)[best_index(
            views(words@),
            views(candidates@),
            views(pattern_space@),
        )] && p.1 as int == score_val(
            views(words@),
            views(candidates@),
            views(pattern_space@),
            best_index(views(words@), views(candidates@), views(pattern_space@)),
        ),
        r matches Ok(p) ==> forall|i: int|
            0 <= i < words@.len() ==> key_ge(
                p.1 as int,
                views(candidates@).contains(p.0@),
                #[trigger] score_val(views(words@), views(candidates@), views(pattern_space@), i),
                views(candidates@).contains(views(words@)[i]),
            ),
{
    let ghost ws = views(words@);
    let ghost cs = views(candidates@);
    let ghost ps = views(pattern_space@);
    if words.len() == 0 {
        return Err(SolverError::EmptyDictionary);
    }
    let scores = parallel_scores(words, candidates, pattern_space, length);
    let mut best_i: usize = 0;
    let mut best_s: u64 = match scores[0] {
        Ok(s) => s,
        Err(_) => {
            proof {
                assert(scored(ws[0], cs, ps) is Err);
            }
            return Err(SolverError::DegenerateScore);
        },
    };
    let mut best_m = is_member(candidates, &words[0]);
    let mut i: usize = 1;
    while i < words.len()
        invariant
            1 <= i <= words@.len(),
            ws == views(words@),
            cs == views(candidates@),
            ps == views(pattern_space@),
            ws.len() == words@.len(),
            scores@.len() == words@.len(),
            forall|j: int| 0 <= j < scores@.len() ==> scores@[j] == scored(
                (#[trigger] words@[j])@,
                cs,
                ps,
            ),
            forall|j: int| 0 <= j < i ==> (#[trigger] scored(ws[j], cs, ps)) is Ok,
            0 <= best_i < i,
            best_i == best_upto(ws, cs, ps, i as int),
            best_s as int == score_val(ws, cs, ps, best_i as int),
            best_m == cs.contains(ws[best_i as int]),
        decreases words@.len() - i,
    {
        proof {
            assert(ws[i as int] == words@[i as int]@);
        }
        let s: u64 = match scores[i] {
            Ok(s) => s,
            Err(_) => {
                proof {
                    assert(scored(ws[i as int], cs, ps) is Err);
                }
                return Err(SolverError::DegenerateScore);
            },
        };
        let m = is_member(candidates, &words[i]);
        proof {
            assert(best_upto(ws, cs, ps, i + 1 as int) == (if key_ge(
                score_val(ws, cs, ps, i as int),
                cs.contains(ws[i as int]),
                score_val(ws, cs, ps, best_i as int),
                cs.contains(ws[best_i as int]),
            ) {
                i as int
            } else {
                best_i as int
            }));
        }
        if s > best_s || (s == best_s && (m || !best_m)) {
            best_i = i;
            best_s = s;
            best_m = m;
        }
        i += 1;
    }
    let w = copy_word(&words[best_i]);
    proof {
        lemma_best_upto_maximal(ws, cs, ps, ws.len() as int);
        assert(w@ == ws[best_i as int]);
    }
    Ok((w, best_s))
}

} // verus!
