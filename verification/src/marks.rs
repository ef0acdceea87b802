//! Feedback marks, solver errors, and parsing of user-entered feedback digits.

use vstd::prelude::*;

verus! {

/// One feedback mark for one letter slot of a guess.
#[derive(Clone, Copy, Debug, PartialEq, Eq, Structural)]
pub enum Mark {
    /// No further copy of the guessed letter (beyond ones already marked
    /// `Exact` or `PresentElsewhere`) appears in the secret.
    Absent,
    /// The guessed letter appears in the secret, but not at this position.
    PresentElsewhere,
    /// The guessed letter is correct at this exact position.
    Exact,
}

/// Everything that can go wrong inside the solver engine.
#[derive(Clone, Copy, Debug, PartialEq, Eq, Structural)]
pub enum SolverError {
    /// Guess, pattern, or candidate lengths disagree.
    LengthMismatch,
    /// User-supplied feedback has the wrong length (recoverable: re-prompt).
    InvalidFeedbackLength,
    /// Feedback contains a symbol outside the three-valued alphabet
    /// (recoverable: re-prompt).
    InvalidMarkSymbol,
    /// No words of the requested length exist.
    EmptyDictionary,
    /// The split-sum denominator was zero while scoring.
    DegenerateScore,
}

/// The three digits accepted as feedback symbols.
pub open spec fn is_mark_char(c: char) -> bool {
    c == '0' || c == '1' || c == '2'
}

/// The mark denoted by a feedback digit (`'0'` grey, `'1'` yellow, `'2'` green).
pub open spec fn mark_of_char(c: char) -> Mark {
    if c == '2' {
        Mark::Exact
    } else if c == '1' {
        Mark::PresentElsewhere
    } else {
        Mark::Absent
    }
}

/// Parses one round of user feedback: `expected_len` digits drawn from
/// `0` (absent), `1` (present elsewhere), `2` (exact).
///
/// Succeeds exactly when the input has the expected length and every
/// symbol is one of the three digits; the resulting pattern maps each
/// digit to its mark, position by position.
pub fn parse_feedback(symbols: &Vec<char>, expected_len: usize) -> (r: Result<
    Vec<Mark>,
    SolverError,
>)
    ensures
        r is Ok <==> (symbols@.len() == expected_len && (forall|i: int|
            0 <= i < symbols@.len() ==> is_mark_char(#[trigger] symbols@[i]))),
        r matches Ok(p) ==> p@.len() == expected_len && (forall|i: int|
            0 <= i < symbols@.len() ==> p@[i] == mark_of_char(#[trigger] symbols@[i])),
        symbols@.len() != expected_len ==> r == Err::<Vec<Mark>, SolverError>(
            SolverError::InvalidFeedbackLength,
        ),
        symbols@.len() == expected_len ==> (r matches Err(e) ==> e
            == SolverError::InvalidMarkSymbol),
{
    if symbols.len() != expected_len {
        return Err(SolverError::InvalidFeedbackLength);
    }
    let mut pattern: Vec<Mark> = Vec::new();
    let mut i: usize = 0;
    while i < symbols.len()
        invariant
            0 <= i <= symbols@.len(),
            symbols@.len() == expected_len,
            pattern@.len() == i,
            forall|j: int| 0 <= j < i ==> is_mark_char(#[trigger] symbols@[j]),
            forall|j: int| 0 <= j < i ==> pattern@[j] == mark_of_char(#[trigger] symbols@[j]),
        decreases symbols@.len() - i,
    {
        let c = symbols[i];
        if c == '2' {
            pattern.push(Mark::Exact);
        } else if c == '1' {
            pattern.push(Mark::PresentElsewhere);
        } else if c == '0' {
            pattern.push(Mark::Absent);
        } else {
            return Err(SolverError::InvalidMarkSymbol);
        }
        i += 1;
    }
    Ok(pattern)
}

} // verus!
