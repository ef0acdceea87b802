use wordle_solver::classify;
use wordle_solver::filter;
use wordle_solver::generate;
use wordle_solver::parse_feedback;
use wordle_solver::process_data;
use wordle_solver::score;
use wordle_solver::select_best;
use wordle_solver::Mark;
use wordle_solver::Session;
use wordle_solver::SessionState;
use wordle_solver::SolverError;

fn word(s: &str) -> Vec<char> {
    s.chars().collect()
}

fn words(ss: &[&str]) -> Vec<Vec<char>> {
    ss.iter().map(|s| word(s)).collect()
}

fn pattern(digits: &str) -> Vec<Mark> {
    digits
        .chars()
        .map(|c| match c {
            '0' => Mark::Absent,
            '1' => Mark::PresentElsewhere,
            '2' => Mark::Exact,
            _ => panic!("bad digit"),
        })
        .collect()
}

#[test]
fn pattern_space_size_zero() {
    let space = generate(0);
    assert_eq!(space.len(), 1);
    assert!(space[0].is_empty());
}

#[test]
fn pattern_space_size_and_distinctness() {
    let space = generate(2);
    assert_eq!(space.len(), 9);
    for p in &space {
        assert_eq!(p.len(), 2);
    }
    for i in 0..space.len() {
        for j in 0..space.len() {
            if i != j {
                assert_ne!(space[i], space[j]);
            }
        }
    }
}

#[test]
fn pattern_space_canonical_order() {
    let space = generate(1);
    assert_eq!(
        space,
        vec![
            vec![Mark::Absent],
            vec![Mark::PresentElsewhere],
            vec![Mark::Exact],
        ]
    );
}

#[test]
fn pattern_space_restartable() {
    assert_eq!(generate(3), generate(3));
    assert_eq!(generate(3).len(), 27);
}

#[test]
fn filter_never_grows() {
    let cands = words(&["RAISE", "ARISE", "TABLE"]);
    let space = generate(5);
    for p in &space {
        let kept = filter(&cands, &word("RAISE"), p);
        assert!(kept.len() <= cands.len());
    }
}

#[test]
fn filter_round_trip_keeps_secret() {
    // The exact feedback ARISE produces against the guess RAISE:
    // R and A present but misplaced, I, S, E exact.
    let cands = words(&["RAISE", "ARISE", "TABLE"]);
    let kept = filter(&cands, &word("RAISE"), &pattern("11222"));
    assert!(kept.contains(&word("ARISE")));
}

#[test]
fn filter_elsewhere_forbidden_position() {
    // Guess RAISE against candidates RAISE and ARISE, with R and A marked
    // present-elsewhere and I, S, E exact: ARISE (A and R swapped) stays,
    // RAISE itself is eliminated by the forbidden-position rule.
    let cands = words(&["RAISE", "ARISE"]);
    let kept = filter(&cands, &word("RAISE"), &pattern("11222"));
    assert_eq!(kept, words(&["ARISE"]));
}

#[test]
fn filter_duplicate_letter_counts() {
    // Guess ABBA with both Bs exact and both As absent: survivors must
    // have exactly those Bs and no A at all.
    let cands = words(&["ABBA", "ABXY", "XBBX"]);
    let kept = filter(&cands, &word("ABBA"), &pattern("0220"));
    assert_eq!(kept, words(&["XBBX"]));
}

#[test]
fn filter_grey_copy_fixes_letter_count() {
    // Guess AAXY against a secret with exactly one A: first A yellow,
    // second A grey. A word with two As must go; one A elsewhere stays.
    let cands = words(&["AAZZ", "ZZAZ", "ZAZZ"]);
    let kept = filter(&cands, &word("AAXY"), &pattern("1000"));
    // The yellow A forbids position 0, the grey A demands exactly one A;
    // a naive "grey bans the letter" reading would wrongly drop them all.
    assert_eq!(kept, words(&["ZZAZ", "ZAZZ"]));
}

#[test]
fn score_exact_value() {
    // Guess AB against candidates {AB, BA} over the nine patterns of
    // length two: AB survives only (Exact, Exact), BA only
    // (elsewhere, elsewhere); sum_kept = 2, sum_split = 2, score 1.
    let cands = words(&["AB", "BA"]);
    let space = generate(2);
    assert_eq!(score(&word("AB"), &cands, &space), Ok(1));
}

#[test]
fn score_empty_candidates_degenerates() {
    let cands: Vec<Vec<char>> = Vec::new();
    let space = generate(2);
    assert_eq!(
        score(&word("AB"), &cands, &space),
        Err(SolverError::DegenerateScore)
    );
}

#[test]
fn select_best_empty_dictionary() {
    let none: Vec<Vec<char>> = Vec::new();
    let space = generate(2);
    assert_eq!(
        select_best(&none, &none, &space, 2),
        Err(SolverError::EmptyDictionary)
    );
}

#[test]
fn select_best_picks_higher_score() {
    // CC and DD are indistinguishable to the guess AB (both score 0) but
    // fully split by CD (score 1): CD must win.
    let dict = words(&["AB", "CD"]);
    let cands = words(&["CC", "DD"]);
    let space = generate(2);
    let picked = select_best(&dict, &cands, &space, 2).unwrap();
    assert_eq!(picked, (word("CD"), 1));
}

#[test]
fn select_best_tie_prefers_candidate() {
    // Both words score 0 against the singleton candidate set; the member
    // of the candidate set wins the tie even though it comes first.
    let dict = words(&["AB", "BA"]);
    let cands = words(&["AB"]);
    let space = generate(2);
    let picked = select_best(&dict, &cands, &space, 2).unwrap();
    assert_eq!(picked, (word("AB"), 0));
}

#[test]
fn select_best_deterministic() {
    let dict = words(&["AB", "BA", "AA"]);
    let cands = words(&["AB", "BA"]);
    let space = generate(2);
    let first = select_best(&dict, &cands, &space, 2).unwrap();
    let second = select_best(&dict, &cands, &space, 2).unwrap();
    assert_eq!(first, second);
}

#[test]
fn parse_feedback_valid() {
    let symbols: Vec<char> = "0120".chars().collect();
    assert_eq!(
        parse_feedback(&symbols, 4),
        Ok(vec![
            Mark::Absent,
            Mark::PresentElsewhere,
            Mark::Exact,
            Mark::Absent,
        ])
    );
}

#[test]
fn parse_feedback_wrong_length() {
    let symbols: Vec<char> = "012".chars().collect();
    assert_eq!(
        parse_feedback(&symbols, 4),
        Err(SolverError::InvalidFeedbackLength)
    );
}

#[test]
fn parse_feedback_bad_symbol() {
    let symbols: Vec<char> = "03".chars().collect();
    assert_eq!(
        parse_feedback(&symbols, 2),
        Err(SolverError::InvalidMarkSymbol)
    );
}

#[test]
fn classify_buckets() {
    let classified = classify(&word("AB"), &pattern("20")).unwrap();
    assert_eq!(classified.exact, vec![('A', 0)]);
    assert_eq!(classified.absent, vec!['B']);
    assert!(classified.elsewhere.is_empty());
}

#[test]
fn classify_elsewhere_keeps_position() {
    let classified = classify(&word("ABBA"), &pattern("1212")).unwrap();
    assert_eq!(classified.elsewhere, vec![('A', 0), ('B', 2)]);
    assert_eq!(classified.exact, vec![('B', 1), ('A', 3)]);
    assert!(classified.absent.is_empty());
}

#[test]
fn classify_length_mismatch() {
    assert!(matches!(
        classify(&word("ABC"), &pattern("10")),
        Err(SolverError::LengthMismatch)
    ));
}

#[test]
fn session_rejects_empty_dictionary() {
    assert!(matches!(
        Session::new(Vec::new(), 2),
        Err(SolverError::EmptyDictionary)
    ));
}

#[test]
fn session_rejects_wrong_length_word() {
    assert!(matches!(
        Session::new(words(&["AB", "ABC"]), 2),
        Err(SolverError::LengthMismatch)
    ));
}

#[test]
fn session_solves_with_true_feedback() {
    // Secret ARISE: the true feedback for the guess RAISE collapses the
    // candidate set to the secret in one round, well within |dictionary|.
    let mut session = Session::new(words(&["RAISE", "ARISE", "TABLE"]), 5).unwrap();
    assert_eq!(session.state, SessionState::AwaitingFirstGuess);
    let st = session
        .apply_feedback(&word("RAISE"), &pattern("11222"))
        .unwrap();
    assert_eq!(st, SessionState::Solved);
    assert_eq!(session.solution(), Some(word("ARISE")));
}

#[test]
fn session_exhausts_on_contradiction() {
    let mut session = Session::new(words(&["AB", "CD"]), 2).unwrap();
    let st = session.apply_feedback(&word("AB"), &pattern("21")).unwrap();
    assert_eq!(st, SessionState::Exhausted);
    assert_eq!(session.solution(), None);
}

#[test]
fn session_feedback_length_validated() {
    let mut session = Session::new(words(&["AB", "CD"]), 2).unwrap();
    let before = session.candidates.clone();
    assert_eq!(
        session.apply_feedback(&word("AB"), &pattern("210")),
        Err(SolverError::InvalidFeedbackLength)
    );
    assert_eq!(session.candidates, before);
    assert_eq!(session.state, SessionState::AwaitingFirstGuess);
}

#[test]
fn session_guess_length_validated() {
    let mut session = Session::new(words(&["AB", "CD"]), 2).unwrap();
    assert_eq!(
        session.apply_feedback(&word("ABC"), &pattern("21")),
        Err(SolverError::LengthMismatch)
    );
    assert_eq!(session.state, SessionState::AwaitingFirstGuess);
}

#[test]
fn session_recommend_runs_scorer() {
    // Both dictionary words score 1 against {AB, BA} and both are
    // candidates, so the later one wins the deterministic tie-break.
    let session = Session::new(words(&["AB", "BA"]), 2).unwrap();
    let picked = session.recommend().unwrap();
    assert_eq!(picked, (word("BA"), 1));
}

#[test]
fn session_loops_until_solved() {
    // Secret BA in a four-word dictionary; each round applies the true
    // feedback of the round's guess and terminates within |dictionary|.
    let dict = words(&["AB", "BA", "AA", "BB"]);
    let mut session = Session::new(dict.clone(), 2).unwrap();
    let secret = word("BA");
    let mut rounds = 0;
    loop {
        let (guess, _score) = session.recommend().unwrap();
        let fb = true_feedback(&secret, &guess);
        let st = session.apply_feedback(&guess, &fb).unwrap();
        rounds += 1;
        assert!(rounds <= dict.len());
        match st {
            SessionState::Solved => break,
            SessionState::Exhausted => panic!("consistent feedback exhausted the dictionary"),
            _ => continue,
        }
    }
    assert_eq!(session.solution(), Some(secret));
}

/// The authentic feedback the secret produces for a guess: greens first,
/// then yellows while the secret's remaining copies of the letter last.
fn true_feedback(secret: &[char], guess: &[char]) -> Vec<Mark> {
    let mut marks = vec![Mark::Absent; guess.len()];
    let mut used = vec![false; secret.len()];
    for i in 0..guess.len() {
        if guess[i] == secret[i] {
            marks[i] = Mark::Exact;
            used[i] = true;
        }
    }
    for i in 0..guess.len() {
        if marks[i] == Mark::Exact {
            continue;
        }
        for j in 0..secret.len() {
            if !used[j] && secret[j] == guess[i] && secret[j] != guess[j] {
                marks[i] = Mark::PresentElsewhere;
                used[j] = true;
                break;
            }
        }
    }
    marks
}

#[test]
fn process_data_reports() {
    assert_eq!(process_data(), "Resultat du traitement des données");
}
