//! Feedback Classifier: partitions a guess's letters into the three
//! feedback buckets, keeping each letter's position where it matters.

use vstd::prelude::*;
use crate::marks::Mark;
use crate::marks::SolverError;

verus! {

/// A guess's letters grouped by their feedback marks: absent letters as
/// bare letters, the others with the position they were marked at.
pub struct ClassifiedGuess {
    /// Letters marked `Absent`, in slot order.
    pub absent: Vec<char>,
    /// Letters marked `PresentElsewhere`, with their forbidden position.
    pub elsewhere: Vec<(char, usize)>,
    /// Letters marked `Exact`, with their required position.
    pub exact: Vec<(char, usize)>,
}

/// The letters among the first `k` slots whose mark is `Absent`.
pub open spec fn absent_letters(guess: Seq<char>, pattern: Seq<Mark>, k: int) -> Seq<char>
    decreases k,
{
    if k <= 0 {
        Seq::empty()
    } else {
        let rest = absent_letters(guess, pattern, k - 1);
        if pattern[k - 1] == Mark::Absent {
            rest.push(guess[k - 1])
        } else {
            rest
        }
    }
}

/// The (letter, position) pairs among the first `k` slots whose mark is `m`.
pub open spec fn marked_pairs(guess: Seq<char>, pattern: Seq<Mark>, m: Mark, k: int) -> Seq<
    (char, usize),
>
    decreases k,
{
    if k <= 0 {
        Seq::empty()
    } else {
        let rest = marked_pairs(guess, pattern, m, k - 1);
        if pattern[k - 1] == m {
            rest.push((guess[k - 1], (k - 1) as usize))
        } else {
            rest
        }
    }
}

/// Feedback Classifier: assigns each guess letter to the bucket its mark
/// names, in stable slot order. Fails with `LengthMismatch` exactly when
/// guess and pattern lengths disagree.
pub fn classify(guess: &Vec<char>, pattern: &Vec<Mark>) -> (r: Result<ClassifiedGuess, SolverError>)
    ensures
        r is Ok <==> guess@.len() == pattern@.len(),
        guess@.len() != pattern@.len() ==> r == Err::<ClassifiedGuess, SolverError>(
            SolverError::LengthMismatch,
        ),
        r matches Ok(c) ==> c.absent@ == absent_letters(guess@, pattern@, guess@.len() as int)
            && c.elsewhere@ == marked_pairs(
            guess@,
            pattern@,
            Mark::PresentElsewhere,
            guess@.len() as int,
        ) && c.exact@ == marked_pairs(guess@, pattern@, Mark::Exact, guess@.len() as int),
{
    if guess.len() != pattern.len() {
        return Err(SolverError::LengthMismatch);
    }
    let mut absent: Vec<char> = Vec::new();
    let mut elsewhere: Vec<(char, usize)> = Vec::new();
    let mut exact: Vec<(char, usize)> = Vec::new();
    let mut i: usize = 0;
    while i < guess.len()
        invariant
            0 <= i <= guess@.len(),
            guess@.len() == pattern@.len(),
            absent@ == absent_letters(guess@, pattern@, i as int),
            elsewhere@ == marked_pairs(guess@, pattern@, Mark::PresentElsewhere, i as int),
            exact@ == marked_pairs(guess@, pattern@, Mark::Exact, i as int),
        decreases guess@.len() - i,
    {
        match pattern[i] {
            Mark::Absent => absent.push(guess[i]),
            Mark::PresentElsewhere => elsewhere.push((guess[i], i)),
            Mark::Exact => exact.push((guess[i], i)),
        }
        i += 1;
    }
    Ok(ClassifiedGuess { absent, elsewhere, exact })
}

} // verus!
