//! Counting occurrences of a pattern — and of its mirror image — inside a
//! row of characters, one count per window position.

use vstd::prelude::*;

verus! {

/// The pattern `p` occurs in `s` starting at position `i`.
pub open spec fn matches_at(s: Seq<char>, p: Seq<char>, i: int) -> bool {
    forall|j: int| 0 <= j < p.len() ==> s[i + j] == p[j]
}

/// How many of the first `upto` window positions hold the pattern.
pub open spec fn count_matches(s: Seq<char>, p: Seq<char>, upto: int) -> nat
    decreases upto,
{
    if upto <= 0 {
        0
    } else {
        count_matches(s, p, upto - 1) + (if matches_at(s, p, upto - 1) {
            1nat
        } else {
            0nat
        })
    }
}

/// How many windows of the pattern's length fit in `s`.
pub open spec fn window_count(s: Seq<char>, p: Seq<char>) -> int {
    if p.len() <= s.len() {
        s.len() - p.len() + 1
    } else {
        0
    }
}

proof fn lemma_count_matches_le(s: Seq<char>, p: Seq<char>, upto: int)
    ensures
        count_matches(s, p, upto) <= (if upto >= 0 {
            upto
        } else {
            0int
        }),
    decreases upto,
{
    if upto > 0 {
        lemma_count_matches_le(s, p, upto - 1);
    }
}

fn match_at(s: &[char], p: &[char], i: usize) -> (r: bool)
    requires
        s@.len() <= usize::MAX,
        i + p@.len() <= s@.len(),
    ensures
        r == matches_at(s@, p@, i as int),
{
    let mut j: usize = 0;
    while j < p.len()
        invariant
            j <= p@.len(),
            s@.len() <= usize::MAX,
            i + p@.len() <= s@.len(),
            forall|jj: int| 0 <= jj < j as int ==> s@[i as int + jj] == p@[jj],
        decreases p@.len() - j,
    {
        if s[i + j] != p[j] {
            return false;
        }
        j += 1;
    }
    true
}

fn count_all(s: &[char], p: &[char]) -> (r: u64)
    requires
        p@.len() >= 1,
        s@.len() <= u64::MAX,
    ensures
        r == count_matches(s@, p@, window_count(s@, p@)),
{
    if p.len() > s.len() {
        return 0;
    }
    let n = s.len();
    proof {
        assert(s@.len() <= usize::MAX);
    }
    let windows = n - p.len() + 1;
    let mut count: u64 = 0;
    let mut i: usize = 0;
    while i < windows
        invariant
            i <= windows,
            windows == window_count(s@, p@),
            p@.len() >= 1,
            p@.len() <= s@.len(),
            s@.len() <= u64::MAX,
            s@.len() <= usize::MAX,
            count == count_matches(s@, p@, i as int),
        decreases windows - i,
    {
        proof {
            lemma_count_matches_le(s@, p@, i as int);
        }
        if match_at(s, p, i) {
            count = count + 1;
        }
        i += 1;
    }
    count
}

/// Counts every window of `s` that holds `pattern`, plus every window that
/// holds `pattern` reversed.  A palindromic window is counted twice, as one
/// occurrence of each reading.
pub fn find_all(s: &[char], pattern: &[char]) -> (r: u64)
    requires
        pattern@.len() >= 1,
        2 * s@.len() <= u64::MAX,
    ensures
        r == count_matches(s@, pattern@, window_count(s@, pattern@)) + count_matches(
            s@,
            pattern@.reverse(),
            window_count(s@, pattern@),
        ),
{
    let count = count_all(s, pattern);
    let mut rev_pattern: Vec<char> = Vec::new();
    let mut k: usize = pattern.len();
    while k > 0
        invariant
            k <= pattern@.len(),
            rev_pattern@.len() == pattern@.len() - k,
            forall|j: int|
                0 <= j < rev_pattern@.len() ==> rev_pattern@[j] == pattern@[pattern@.len() - 1 - j],
        decreases k,
    {
        k -= 1;
        rev_pattern.push(pattern[k]);
    }
    proof {
        assert(rev_pattern@ =~= pattern@.reverse());
        assert(window_count(s@, rev_pattern@) == window_count(s@, pattern@));
        lemma_count_matches_le(s@, pattern@, window_count(s@, pattern@));
        lemma_count_matches_le(s@, rev_pattern@, window_count(s@, rev_pattern@));
    }
    let rev_count = count_all(s, rev_pattern.as_slice());
    count + rev_count
}

} // verus!
