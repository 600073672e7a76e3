//! Character-sequence utilities: conversions between `str`/`String` and
//! `Vec<char>`, and verified searching over character vectors.

use vstd::prelude::*;

verus! {

/// Relies on `str::chars` and `Iterator::collect`: the characters of `s`,
/// in order, as a vector.
#[verifier::external_body]
pub fn str_to_chars(s: &str) -> (r: Vec<char>)
    ensures
        r@ == s@,
{
    s.chars().collect()
}

/// Relies on `Iterator::collect` for `String`: the characters of `v`,
/// in order, as a string.
#[verifier::external_body]
pub fn chars_to_string(v: &Vec<char>) -> (r: String)
    ensures
        r@ == v@,
{
    v.iter().collect()
}

/// The pattern `pat` occurs in `h` starting at position `p`.
pub open spec fn matches_at(h: Seq<char>, pat: Seq<char>, p: int) -> bool {
    0 <= p && p + pat.len() <= h.len() && h.subrange(p, p + pat.len()) == pat
}

/// `h` contains `pat` as a contiguous subsequence.
pub open spec fn seq_contains(h: Seq<char>, pat: Seq<char>) -> bool {
    exists|p: int| matches_at(h, pat, p)
}

pub proof fn lemma_contains_at(h: Seq<char>, pat: Seq<char>, p: int)
    requires
        matches_at(h, pat, p),
    ensures
        seq_contains(h, pat),
{
}

/// The first position at or after `from` where `pat` occurs in `s`, if any.
pub open spec fn find_sub(s: Seq<char>, pat: Seq<char>, from: int) -> Option<int>
    decreases s.len() - from,
{
    if from < 0 || from + pat.len() > s.len() {
        None
    } else if matches_at(s, pat, from) {
        Some(from)
    } else if from < s.len() {
        find_sub(s, pat, from + 1)
    } else {
        None
    }
}

pub proof fn lemma_find_sub(s: Seq<char>, pat: Seq<char>, from: int)
    requires
        from >= 0,
    ensures
        match find_sub(s, pat, from) {
            Some(i) => from <= i && matches_at(s, pat, i) && (forall|j: int|
                from <= j < i ==> !matches_at(s, pat, j)),
            None => forall|j: int| from <= j ==> !matches_at(s, pat, j),
        },
    decreases s.len() - from,
{
    if from + pat.len() > s.len() {
        assert(forall|j: int| from <= j ==> !matches_at(s, pat, j));
    } else if matches_at(s, pat, from) {
    } else if from < s.len() {
        lemma_find_sub(s, pat, from + 1);
    } else {
        assert(forall|j: int| from <= j ==> !matches_at(s, pat, j));
    }
}

/// Whether `pat` occurs in `h` at position `p`.
pub fn check_at(h: &Vec<char>, pat: &Vec<char>, p: usize) -> (r: bool)
    requires
        p + pat@.len() <= h@.len(),
    ensures
        r == matches_at(h@, pat@, p as int),
{
    let n = pat.len();
    let m = h.len();
    let mut j: usize = 0;
    while j < n
        invariant
            n == pat@.len(),
            m == h@.len(),
            p + n <= m,
            0 <= j <= n,
            forall|k: int| 0 <= k < j ==> h@[p + k] == pat@[k],
        decreases n - j,
    {
        if h[p + j] != pat[j] {
            assert(h@.subrange(p as int, p + pat@.len())[j as int] != pat@[j as int]);
            return false;
        }
        j += 1;
    }
    proof {
        assert(h@.subrange(p as int, p + pat@.len()) =~= pat@);
    }
    true
}

/// The first occurrence of `pat` in `h` at or after position `from`.
pub fn find_sub_at(h: &Vec<char>, pat: &Vec<char>, from: usize) -> (r: Option<usize>)
    requires
        from <= h@.len(),
    ensures
        match r {
            Some(i) => find_sub(h@, pat@, from as int) == Some(i as int),
            None => find_sub(h@, pat@, from as int) is None,
        },
{
    proof {
        lemma_find_sub(h@, pat@, from as int);
    }
    if pat.len() == 0 {
        proof {
            assert(h@.subrange(from as int, from as int) =~= pat@);
        }
        return Some(from);
    }
    if pat.len() > h.len() {
        return None;
    }
    let last = h.len() - pat.len();
    if from > last {
        return None;
    }
    let mut p: usize = from;
    while p <= last
        invariant
            1 <= pat@.len() <= h@.len(),
            last == h@.len() - pat@.len(),
            last < h@.len(),
            h@.len() <= usize::MAX,
            from <= p <= last + 1,
            forall|j: int| from <= j < p ==> !matches_at(h@, pat@, j),
        decreases last + 1 - p,
    {
        if check_at(h, pat, p) {
            proof {
                lemma_find_sub(h@, pat@, from as int);
            }
            return Some(p);
        }
        p += 1;
    }
    proof {
        assert(forall|j: int| from <= j ==> !matches_at(h@, pat@, j));
        lemma_find_sub(h@, pat@, from as int);
    }
    None
}

/// The characters of `v` from position `a` (inclusive) to `b` (exclusive).
pub fn vec_range(v: &Vec<char>, a: usize, b: usize) -> (r: Vec<char>)
    requires
        a <= b <= v@.len(),
    ensures
        r@ == v@.subrange(a as int, b as int),
{
    let mut out: Vec<char> = Vec::new();
    let mut i: usize = a;
    proof {
        assert(v@.subrange(a as int, a as int) =~= out@);
    }
    while i < b
        invariant
            a <= i <= b <= v@.len(),
            out@ == v@.subrange(a as int, i as int),
        decreases b - i,
    {
        out.push(v[i]);
        proof {
            assert(v@.subrange(a as int, i + 1) =~= v@.subrange(a as int, i as int).push(
                v@[i as int],
            ));
        }
        i += 1;
    }
    out
}

} // verus!
