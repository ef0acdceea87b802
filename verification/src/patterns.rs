//! Pattern space: the canonical enumeration of every feedback pattern of a
//! given length, as base-3 digit sequences with the last slot varying fastest.

use vstd::prelude::*;
use vstd::arithmetic::div_mod::lemma_fundamental_div_mod;
use vstd::arithmetic::div_mod::lemma_fundamental_div_mod_converse;
use crate::marks::Mark;

verus! {

/// `3^n`, the number of feedback patterns of length `n`.
pub open spec fn pow3(n: nat) -> nat
    decreases n,
{
    if n == 0 {
        1
    } else {
        3 * pow3((n - 1) as nat)
    }
}

/// The mark denoted by one base-3 digit.
pub open spec fn mark_of_digit(d: int) -> Mark {
    if d == 2 {
        Mark::Exact
    } else if d == 1 {
        Mark::PresentElsewhere
    } else {
        Mark::Absent
    }
}

/// The base-3 digit of one mark.
pub open spec fn digit_of_mark(m: Mark) -> int {
    match m {
        Mark::Absent => 0,
        Mark::PresentElsewhere => 1,
        Mark::Exact => 2,
    }
}

/// The pattern standing at position `idx` of the canonical enumeration of
/// all feedback patterns of length `n`: the base-3 digits of `idx`, most
/// significant digit first.
pub open spec fn pattern_of_index(idx: int, n: nat) -> Seq<Mark>
    decreases n,
{
    if n == 0 {
        Seq::empty()
    } else {
        pattern_of_index(idx / 3, (n - 1) as nat).push(mark_of_digit(idx % 3))
    }
}

/// `pow3` grows monotonically.
pub proof fn lemma_pow3_monotone(a: nat, b: nat)
    requires
        a <= b,
    ensures
        pow3(a) <= pow3(b),
    decreases b,
{
    if a < b {
        lemma_pow3_monotone(a, (b - 1) as nat);
    }
}

/// Law (pattern space distinctness): positions below `3^n` of the canonical
/// enumeration carry pairwise distinct patterns.
pub proof fn lemma_pattern_index_injective(i: int, j: int, n: nat)
    requires
        0 <= i < pow3(n),
        0 <= j < pow3(n),
        pattern_of_index(i, n) == pattern_of_index(j, n),
    ensures
        i == j,
    decreases n,
{
    if n == 0 {
        assert(pow3(0) == 1);
    } else {
        let pi = pattern_of_index(i / 3, (n - 1) as nat);
        let pj = pattern_of_index(j / 3, (n - 1) as nat);
        assert(pi.push(mark_of_digit(i % 3)) == pj.push(mark_of_digit(j % 3)));
        assert(pi.push(mark_of_digit(i % 3)).last() == mark_of_digit(i % 3));
        assert(pi.len() == pj.len()) by {
            lemma_pattern_index_len(i / 3, (n - 1) as nat);
            lemma_pattern_index_len(j / 3, (n - 1) as nat);
        }
        assert(mark_of_digit(i % 3) == mark_of_digit(j % 3));
        assert(0 <= i % 3 < 3 && 0 <= j % 3 < 3);
        assert(i % 3 == j % 3) by {
            assert(digit_of_mark(mark_of_digit(i % 3)) == i % 3);
            assert(digit_of_mark(mark_of_digit(j % 3)) == j % 3);
        }
        assert(pi =~= pj) by {
            assert(forall|k: int|
                0 <= k < pi.len() ==> pi[k] == pi.push(mark_of_digit(i % 3))[k] && pj[k] == pj.push(
                    mark_of_digit(j % 3),
                )[k]);
        }
        lemma_fundamental_div_mod(i, 3);
        lemma_fundamental_div_mod(j, 3);
        assert(i / 3 < pow3((n - 1) as nat));
        assert(j / 3 < pow3((n - 1) as nat));
        lemma_pattern_index_injective(i / 3, j / 3, (n - 1) as nat);
    }
}

/// Every pattern of the canonical enumeration has length `n`.
pub proof fn lemma_pattern_index_len(idx: int, n: nat)
    ensures
        pattern_of_index(idx, n).len() == n,
    decreases n,
{
    if n > 0 {
        lemma_pattern_index_len(idx / 3, (n - 1) as nat);
    }
}

/// Law (pattern space completeness): every mark sequence of length `n`
/// stands somewhere below `3^n` in the canonical enumeration.
pub proof fn lemma_pattern_space_complete(p: Seq<Mark>, n: nat)
    requires
        p.len() == n,
    ensures
        exists|i: int| 0 <= i < pow3(n) && pattern_of_index(i, n) == p,
    decreases n,
{
    if n == 0 {
        assert(pattern_of_index(0, 0) =~= p);
        assert(0 <= 0 < pow3(0) && pattern_of_index(0, 0) == p);
    } else {
        lemma_pattern_space_complete(p.drop_last(), (n - 1) as nat);
        let j = choose|j: int|
            0 <= j < pow3((n - 1) as nat) && #[trigger] pattern_of_index(j, (n - 1) as nat)
                == p.drop_last();
        let m = digit_of_mark(p.last());
        let i = 3 * j + m;
        assert(0 <= m < 3);
        assert(i < pow3(n));
        lemma_fundamental_div_mod_converse(i, 3, j, m);
        assert(mark_of_digit(m) == p.last());
        assert(pattern_of_index(i, n) == p.drop_last().push(p.last()));
        assert(p.drop_last().push(p.last()) =~= p);
        assert(0 <= i < pow3(n) && pattern_of_index(i, n) == p);
    }
}

/// Law (pattern space determinism): the generator's contract pins its whole
/// result, so any two sequences meeting it are equal — regardless of when or
/// in what order they were produced.
pub proof fn lemma_pattern_space_unique(r1: Seq<Seq<Mark>>, r2: Seq<Seq<Mark>>, n: nat)
    requires
        r1.len() == pow3(n),
        r2.len() == pow3(n),
        forall|i: int| 0 <= i < r1.len() ==> r1[i] == pattern_of_index(i, n),
        forall|i: int| 0 <= i < r2.len() ==> r2[i] == pattern_of_index(i, n),
    ensures
        r1 == r2,
{
    assert(r1 =~= r2);
}

/// Copies a feedback pattern element by element.
fn copy_pattern(p: &Vec<Mark>) -> (r: Vec<Mark>)
    ensures
        r@ == p@,
{
    let mut r: Vec<Mark> = Vec::new();
    let mut i: usize = 0;
    while i < p.len()
        invariant
            0 <= i <= p@.len(),
            r@ == p@.subrange(0, i as int),
        decreases p@.len() - i,
    {
        r.push(p[i]);
        assert(r@ =~= p@.subrange(0, i + 1 as int));
        i += 1;
    }
    assert(r@ =~= p@);
    r
}

/// Pattern Space Generator: enumerates every feedback pattern of the given
/// length, exactly once, in the canonical order.
///
/// The result holds exactly `3^length` patterns, the pattern at position `i`
/// is the base-3 digit expansion of `i`, all patterns are pairwise distinct,
/// and every mark sequence of that length appears.
pub fn generate(length: usize) -> (r: Vec<Vec<Mark>>)
    requires
        pow3(length as nat) <= usize::MAX,
    ensures
        r@.len() == pow3(length as nat),
        forall|i: int| 0 <= i < r@.len() ==> (#[trigger] r@[i])@ == pattern_of_index(
            i,
            length as nat,
        ),
        forall|i: int, j: int| 0 <= i < j < r@.len() ==> (#[trigger] r@[i])@ != (#[trigger] r@[j])@,
        forall|p: Seq<Mark>| p.len() == length ==> exists|i: int|
            0 <= i < r@.len() && (#[trigger] r@[i])@ == p,
{
    let mut result: Vec<Vec<Mark>> = Vec::new();
    result.push(Vec::new());
    assert(result@[0]@ =~= pattern_of_index(0, 0));
    let mut d: usize = 0;
    while d < length
        invariant
            0 <= d <= length,
            pow3(length as nat) <= usize::MAX,
            result@.len() == pow3(d as nat),
            forall|i: int| 0 <= i < result@.len() ==> (#[trigger] result@[i])@ == pattern_of_index(
                i,
                d as nat,
            ),
        decreases length - d,
    {
        proof {
            lemma_pow3_monotone((d + 1) as nat, length as nat);
        }
        let mut next: Vec<Vec<Mark>> = Vec::new();
        let mut j: usize = 0;
        while j < result.len()
            invariant
                0 <= j <= result@.len(),
                result@.len() == pow3(d as nat),
                pow3((d + 1) as nat) <= usize::MAX,
                d < length,
                next@.len() == 3 * j,
                forall|i: int| 0 <= i < result@.len() ==> (#[trigger] result@[i])@
                    == pattern_of_index(i, d as nat),
                forall|i: int| 0 <= i < next@.len() ==> (#[trigger] next@[i])@ == pattern_of_index(
                    i,
                    (d + 1) as nat,
                ),
            decreases result@.len() - j,
        {
            let mut p0 = copy_pattern(&result[j]);
            p0.push(Mark::Absent);
            next.push(p0);
            let mut p1 = copy_pattern(&result[j]);
            p1.push(Mark::PresentElsewhere);
            next.push(p1);
            let mut p2 = copy_pattern(&result[j]);
            p2.push(Mark::Exact);
            next.push(p2);
            proof {
                lemma_fundamental_div_mod_converse(3 * j, 3, j as int, 0);
                lemma_fundamental_div_mod_converse(3 * j + 1, 3, j as int, 1);
                lemma_fundamental_div_mod_converse(3 * j + 2, 3, j as int, 2);
                assert(next@[3 * j]@ == pattern_of_index(3 * j, (d + 1) as nat));
                assert(next@[3 * j + 1]@ == pattern_of_index(3 * j + 1, (d + 1) as nat));
                assert(next@[3 * j + 2]@ == pattern_of_index(3 * j + 2, (d + 1) as nat));
            }
            j += 1;
        }
        result = next;
        d += 1;
    }
    proof {
        assert forall|i: int, j: int| 0 <= i < j < result@.len() implies (#[trigger] result@[i])@
            != (#[trigger] result@[j])@ by {
            if result@[i]@ == result@[j]@ {
                lemma_pattern_index_injective(i, j, length as nat);
            }
        }
        assert forall|p: Seq<Mark>| p.len() == length implies exists|i: int|
            0 <= i < result@.len() && (#[trigger] result@[i])@ == p by {
            lemma_pattern_space_complete(p, length as nat);
            let i = choose|i: int|
                0 <= i < pow3(length as nat) && #[trigger] pattern_of_index(i, length as nat) == p;
            assert(result@[i]@ == p);
        }
    }
    result
}

} // verus!
