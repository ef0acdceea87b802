//! Session: the round-by-round state machine. It owns the dictionary, the
//! shrinking candidate set and the cached pattern space, applies one
//! elimination per observed feedback, and reports when the puzzle is solved
//! or the feedback turned out contradictory.

use vstd::prelude::*;
use crate::marks::Mark;
use crate::marks::SolverError;
use crate::patterns::pow3;
use crate::patterns::pattern_of_index;
use crate::patterns::lemma_pattern_index_len;
use crate::patterns::generate;
use crate::filter::views;
use crate::filter::filtered;
use crate::filter::consistent;
use crate::filter::filter;
use crate::filter::copy_word;
use crate::filter::lemma_filtered_member;
use crate::feedback::feedback_of;
use crate::feedback::lemma_round_progress;
use crate::score::lemma_score_defined;
use crate::select::select_best;
use crate::select::best_index;
use crate::select::score_val;
use crate::select::all_scored_ok;

verus! {

/// Where a session stands.
#[derive(Clone, Copy, Debug, PartialEq, Eq, Structural)]
pub enum SessionState {
    /// No guess has been played yet; the candidate set is the dictionary.
    AwaitingFirstGuess,
    /// A guess is out and the session waits for its feedback.
    AwaitingFeedback,
    /// Exactly one candidate remains: the puzzle's word.
    Solved,
    /// No candidate remains: the feedback contradicted the dictionary.
    Exhausted,
}

/// One solving session over a fixed dictionary.
pub struct Session {
    /// The puzzle's word length.
    pub length: usize,
    /// All guessable words, loaded once, never mutated.
    pub dictionary: Vec<Vec<char>>,
    /// The words still consistent with all feedback received.
    pub candidates: Vec<Vec<char>>,
    /// Every feedback pattern of length `length`, cached once.
    pub pattern_space: Vec<Vec<Mark>>,
    /// Where the session stands.
    pub state: SessionState,
}

impl Session {
    /// The session's invariant: all words have the configured length, the
    /// candidates are dictionary words, the pattern space is the canonical
    /// enumeration, the scoring sums fit in 64 bits, and terminal states
    /// match the candidate count.
    pub open spec fn wf(self) -> bool {
        &&& self.dictionary@.len() > 0
        &&& forall|i: int|
            0 <= i < self.dictionary@.len() ==> (#[trigger] self.dictionary@[i])@.len()
                == self.length
        &&& forall|i: int|
            0 <= i < self.candidates@.len() ==> (#[trigger] self.candidates@[i])@.len()
                == self.length
        &&& forall|i: int|
            0 <= i < self.candidates@.len() ==> views(self.dictionary@).contains(
                #[trigger] views(self.candidates@)[i],
            )
        &&& self.candidates@.len() <= self.dictionary@.len()
        &&& self.pattern_space@.len() == pow3(self.length as nat)
        &&& forall|i: int|
            0 <= i < self.pattern_space@.len() ==> (#[trigger] self.pattern_space@[i])@
                == pattern_of_index(i, self.length as nat)
        &&& forall|i: int|
            0 <= i < self.pattern_space@.len() ==> (#[trigger] self.pattern_space@[i])@.len()
                == self.length
        &&& pow3(self.length as nat) * self.dictionary@.len() * self.dictionary@.len()
            <= u64::MAX
        &&& (self.state == SessionState::Solved ==> self.candidates@.len() == 1)
        &&& (self.state == SessionState::Exhausted ==> self.candidates@.len() == 0)
    }

    /// Starts a session: the candidate set begins as a copy of the
    /// dictionary, and the pattern space is generated once. Rejects an
    /// empty dictionary and any word whose length is not the configured
    /// one.
    pub fn new(dictionary: Vec<Vec<char>>, length: usize) -> (r: Result<Session, SolverError>)
        requires
            pow3(length as nat) <= usize::MAX,
            pow3(length as nat) * dictionary@.len() * dictionary@.len() <= u64::MAX,
        ensures
            r is Ok <==> (dictionary@.len() > 0 && (forall|i: int|
                0 <= i < dictionary@.len() ==> (#[trigger] dictionary@[i])@.len() == length)),
            dictionary@.len() == 0 ==> r == Err::<Session, SolverError>(SolverError::EmptyDictionary),
            dictionary@.len() > 0 && !(forall|i: int|
                0 <= i < dictionary@.len() ==> (#[trigger] dictionary@[i])@.len() == length) ==> r
                == Err::<Session, SolverError>(SolverError::LengthMismatch),
            r matches Ok(s) ==> s.wf() && s.length == length && views(s.dictionary@) == views(
                dictionary@,
            ) && views(s.candidates@) == views(dictionary@) && s.state
                == SessionState::AwaitingFirstGuess,
    {
        if dictionary.len() == 0 {
            return Err(SolverError::EmptyDictionary);
        }
        let mut i: usize = 0;
        while i < dictionary.len()
            invariant
                0 <= i <= dictionary@.len(),
                forall|j: int| 0 <= j < i ==> (#[trigger] dictionary@[j])@.len() == length,
            decreases dictionary@.len() - i,
        {
            if dictionary[i].len() != length {
                return Err(SolverError::LengthMismatch);
            }
            i += 1;
        }
        let pattern_space = generate(length);
        let candidates = copy_words(&dictionary);
        let s = Session {
            length,
            dictionary,
            candidates,
            pattern_space,
            state: SessionState::AwaitingFirstGuess,
        };
        proof {
            assert forall|t: int| 0 <= t < s.pattern_space@.len() implies (
            #[trigger] s.pattern_space@[t])@.len() == length by {
                lemma_pattern_index_len(t, length as nat);
            }
            assert(views(s.candidates@) =~= views(s.dictionary@));
            assert forall|t: int| 0 <= t < s.candidates@.len() implies views(
                s.dictionary@,
            ).contains(#[trigger] views(s.candidates@)[t]) by {
                assert(views(s.dictionary@)[t] == views(s.candidates@)[t]);
            }
        }
        Ok(s)
    }

    /// Asks the Selector for the next recommended guess and its score.
    pub fn recommend(&self) -> (r: Result<(Vec<char>, u64), SolverError>)
        requires
            self.wf(),
        ensures
            r is Ok <==> all_scored_ok(
                views(self.dictionary@),
                views(self.candidates@),
                views(self.pattern_space@),
            ),
            r matches Ok(p) ==> p.0@ == views(self.dictionary@)[best_index(
                views(self.dictionary@),
                views(self.candidates@),
                views(self.pattern_space@),
            )] && p.1 as int == score_val(
                views(self.dictionary@),
                views(self.candidates@),
                views(self.pattern_space@),
                best_index(
                    views(self.dictionary@),
                    views(self.candidates@),
                    views(self.pattern_space@),
                ),
            ),
            r is Err ==> r == Err::<(Vec<char>, u64), SolverError>(SolverError::DegenerateScore),
            self.candidates@.len() > 0 ==> r is Ok,
    {
        proof {
            if self.candidates@.len() > 0 {
                let dv = views(self.dictionary@);
                let cv = views(self.candidates@);
                let pv = views(self.pattern_space@);
                assert forall|i: int| 0 <= i < dv.len() implies (#[trigger] crate::score::scored(
                    dv[i],
                    cv,
                    pv,
                )) is Ok by {
                    assert(dv[i] == self.dictionary@[i]@);
                    assert forall|t: int| 0 <= t < cv.len() implies (#[trigger] cv[t]).len()
                        == self.length by {
                        assert(cv[t] == self.candidates@[t]@);
                    }
                    assert forall|t: int| 0 <= t < pv.len() implies #[trigger] pv[t]
                        == pattern_of_index(t, self.length as nat) by {
                        assert(pv[t] == self.pattern_space@[t]@);
                    }
                    lemma_score_defined(dv[i], cv, pv, self.length as nat);
                }
            }
        }
        proof {
            let p = self.pattern_space@.len() as int;
            let c = self.candidates@.len() as int;
            let d = self.dictionary@.len() as int;
            assert(p * c * c <= p * d * d) by (nonlinear_arith)
                requires
                    0 <= p,
                    0 <= c <= d,
            ;
        }
        select_best(&self.dictionary, &self.candidates, &self.pattern_space, self.length)
    }

    /// Applies one round of elimination: validates the feedback's length,
    /// replaces the candidate set by the Candidate Filter's output, and
    /// moves to `Solved`, `Exhausted`, or back to `AwaitingFeedback`. An
    /// invalid input never corrupts the session's state.
    pub fn apply_feedback(&mut self, guess: &Vec<char>, pattern: &Vec<Mark>) -> (r: Result<
        SessionState,
        SolverError,
    >)
        requires
            old(self).wf(),
            old(self).state == SessionState::AwaitingFirstGuess || old(self).state
                == SessionState::AwaitingFeedback,
        ensures
            final(self).wf(),
            r is Err ==> *final(self) == *old(self),
            r is Ok <==> (pattern@.len() == old(self).length && guess@.len() == old(self).length),
            pattern@.len() != old(self).length ==> r == Err::<SessionState, SolverError>(
                SolverError::InvalidFeedbackLength,
            ),
            pattern@.len() == old(self).length && guess@.len() != old(self).length ==> r
                == Err::<SessionState, SolverError>(SolverError::LengthMismatch),
            r is Ok ==> final(self).candidates@.len() <= old(self).candidates@.len(),
            r matches Ok(st) ==> views(final(self).candidates@) == filtered(
                views(old(self).candidates@),
                guess@,
                pattern@,
            ) && final(self).dictionary == old(self).dictionary && final(self).pattern_space == old(
                self,
            ).pattern_space && final(self).length == old(self).length && st == final(self).state
                && final(self).state == (if final(self).candidates@.len() == 1 {
                SessionState::Solved
            } else if final(self).candidates@.len() == 0 {
                SessionState::Exhausted
            } else {
                SessionState::AwaitingFeedback
            }),
    {
        if pattern.len() != self.length {
            return Err(SolverError::InvalidFeedbackLength);
        }
        if guess.len() != self.length {
            return Err(SolverError::LengthMismatch);
        }
        let new_candidates = filter(&self.candidates, guess, pattern);
        proof {
            let oc = views(self.candidates@);
            let nc = filtered(oc, guess@, pattern@);
            assert forall|t: int| 0 <= t < nc.len() implies nc[t].len() == self.length && views(
                self.dictionary@,
            ).contains(#[trigger] nc[t]) by {
                lemma_filtered_member(oc, guess@, pattern@, oc.len() as int, t);
                let i = choose|i: int|
                    0 <= i < oc.len() && #[trigger] oc[i] == nc[t] && consistent(
                        oc[i],
                        guess@,
                        pattern@,
                    );
                assert(oc[i] == self.candidates@[i]@);
            }
        }
        self.candidates = new_candidates;
        proof {
            let nc = filtered(views(old(self).candidates@), guess@, pattern@);
            assert(views(self.candidates@) == nc);
            assert forall|i: int| 0 <= i < self.candidates@.len() implies (
            #[trigger] self.candidates@[i])@.len() == self.length && views(
                self.dictionary@,
            ).contains(views(self.candidates@)[i]) by {
                assert(views(self.candidates@)[i] == self.candidates@[i]@);
                assert(nc[i].len() == self.length && views(self.dictionary@).contains(nc[i]));
            }
        }
        let st = if self.candidates.len() == 1 {
            SessionState::Solved
        } else if self.candidates.len() == 0 {
            SessionState::Exhausted
        } else {
            SessionState::AwaitingFeedback
        };
        self.state = st;
        Ok(st)
    }

    /// The solved puzzle's word, once the session reached `Solved`.
    pub fn solution(&self) -> (r: Option<Vec<char>>)
        requires
            self.wf(),
        ensures
            r is Some <==> self.state == SessionState::Solved,
            r matches Some(w) ==> self.candidates@.len() == 1 && w@ == self.candidates@[0]@,
    {
        match self.state {
            SessionState::Solved => Some(copy_word(&self.candidates[0])),
            _ => None,
        }
    }
}

/// Law (termination): one `apply_feedback` round, fed the true feedback of
/// a secret still among the candidates, keeps the secret; and when the
/// guessed word was itself a candidate other than the secret, it strictly
/// shrinks the candidate set. Since the set never grows, a session whose
/// guesses are drawn from the candidates reaches `Solved` on a consistent
/// feedback sequence in at most `|dictionary|` rounds.
pub proof fn lemma_session_round_progress(
    before: Session,
    after: Session,
    secret: Seq<char>,
    guess: Seq<char>,
    si: int,
    gi: int,
)
    requires
        views(after.candidates@) == filtered(
            views(before.candidates@),
            guess,
            feedback_of(secret, guess),
        ),
        0 <= si < before.candidates@.len(),
        views(before.candidates@)[si] == secret,
        0 <= gi < before.candidates@.len(),
        views(before.candidates@)[gi] == guess,
        secret.len() == guess.len(),
        secret != guess,
    ensures
        views(after.candidates@).contains(secret),
        after.candidates@.len() < before.candidates@.len(),
{
    lemma_round_progress(views(before.candidates@), secret, guess, si, gi);
}

/// Copies a word list element by element.
fn copy_words(ws: &Vec<Vec<char>>) -> (r: Vec<Vec<char>>)
    ensures
        r@.len() == ws@.len(),
        forall|i: int| 0 <= i < ws@.len() ==> (#[trigger] r@[i])@ == ws@[i]@,
{
    let mut r: Vec<Vec<char>> = Vec::new();
    let mut i: usize = 0;
    while i < ws.len()
        invariant
            0 <= i <= ws@.len(),
            r@.len() == i,
            forall|j: int| 0 <= j < i ==> (#[trigger] r@[j])@ == ws@[j]@,
        decreases ws@.len() - i,
    {
        r.push(copy_word(&ws[i]));
        i += 1;
    }
    r
}

} // verus!
