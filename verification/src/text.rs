//! Text normalization: stripping inline `<...>` markup spans and collapsing
//! whitespace runs to single spaces, with trimming helpers.

use vstd::prelude::*;
use crate::chars::{str_to_chars, chars_to_string};

verus! {

/// The Unicode `White_Space` characters, the set used by `str::trim` and
/// `str::split_whitespace`.
pub open spec fn is_ws_char(c: char) -> bool {
    ||| c == ' '
    ||| c == '\t'
    ||| c == '\n'
    ||| c == '\r'
    ||| c == '\u{b}'
    ||| c == '\u{c}'
    ||| c == '\u{85}'
    ||| c == '\u{a0}'
    ||| c == '\u{1680}'
    ||| (0x2000 <= c as u32 && c as u32 <= 0x200a)
    ||| c == '\u{2028}'
    ||| c == '\u{2029}'
    ||| c == '\u{202f}'
    ||| c == '\u{205f}'
    ||| c == '\u{3000}'
}

/// Whether `c` is a whitespace character.
pub fn is_ws(c: char) -> (r: bool)
    ensures
        r == is_ws_char(c),
{
    let u = c as u32;
    u == 0x20 || u == 0x9 || u == 0xa || u == 0xd || u == 0xb || u == 0xc || u == 0x85
        || u == 0xa0 || u == 0x1680 || (0x2000 <= u && u <= 0x200a) || u == 0x2028
        || u == 0x2029 || u == 0x202f || u == 0x205f || u == 0x3000
}

/// The first index of `c` in `s`, or `s.len()` if `c` does not occur.
pub open spec fn index_of(s: Seq<char>, c: char) -> int
    decreases s.len(),
{
    if s.len() == 0 {
        0
    } else if s[0] == c {
        0
    } else {
        1 + index_of(s.skip(1), c)
    }
}

pub proof fn lemma_index_of(s: Seq<char>, c: char)
    ensures
        0 <= index_of(s, c) <= s.len(),
        index_of(s, c) < s.len() ==> s[index_of(s, c)] == c,
        forall|j: int| 0 <= j < index_of(s, c) ==> s[j] != c,
    decreases s.len(),
{
    if s.len() == 0 {
    } else if s[0] == c {
    } else {
        lemma_index_of(s.skip(1), c);
        assert forall|j: int| 0 <= j < index_of(s, c) implies s[j] != c by {
            if j > 0 {
                assert(s.skip(1)[j - 1] == s[j]);
            }
        }
    }
}

/// `index_of` computed from an explicit first occurrence.
pub proof fn lemma_index_of_is(s: Seq<char>, c: char, i: int)
    requires
        0 <= i <= s.len(),
        i < s.len() ==> s[i] == c,
        i == s.len() ==> forall|j: int| 0 <= j < s.len() ==> s[j] != c,
        forall|j: int| 0 <= j < i ==> s[j] != c,
    ensures
        index_of(s, c) == i,
    decreases s.len(),
{
    if s.len() == 0 {
    } else if s[0] == c {
    } else {
        assert(forall|j: int| 0 <= j < i - 1 ==> s.skip(1)[j] == s[j + 1]);
        assert(forall|j: int| 0 <= j < s.len() - 1 ==> s.skip(1)[j] == s[j + 1]);
        lemma_index_of_is(s.skip(1), c, i - 1);
    }
}

/// Repeatedly delete the span from each leading `<` through the first `>`
/// at or after it; if a `<` has no matching `>`, keep the remainder as is.
pub open spec fn strip_tags(s: Seq<char>) -> Seq<char>
    decreases s.len(),
{
    if s.len() == 0 {
        s
    } else if s[0] == '<' {
        let j = index_of(s, '>');
        if 0 <= j && j < s.len() {
            strip_tags(s.skip(j + 1))
        } else {
            s
        }
    } else {
        seq![s[0]] + strip_tags(s.skip(1))
    }
}

/// The number of leading whitespace characters of `s`.
pub open spec fn leading_ws(s: Seq<char>) -> int
    decreases s.len(),
{
    if s.len() == 0 || !is_ws_char(s[0]) {
        0
    } else {
        1 + leading_ws(s.skip(1))
    }
}

pub proof fn lemma_leading_ws(s: Seq<char>)
    ensures
        0 <= leading_ws(s) <= s.len(),
        leading_ws(s) < s.len() ==> !is_ws_char(s[leading_ws(s)]),
        forall|j: int| 0 <= j < leading_ws(s) ==> is_ws_char(s[j]),
    decreases s.len(),
{
    if s.len() == 0 || !is_ws_char(s[0]) {
    } else {
        lemma_leading_ws(s.skip(1));
        assert forall|j: int| 0 <= j < leading_ws(s) implies is_ws_char(s[j]) by {
            if j > 0 {
                assert(s.skip(1)[j - 1] == s[j]);
            }
        }
    }
}

pub proof fn lemma_leading_ws_is(s: Seq<char>, i: int)
    requires
        0 <= i <= s.len(),
        i < s.len() ==> !is_ws_char(s[i]),
        forall|j: int| 0 <= j < i ==> is_ws_char(s[j]),
    ensures
        leading_ws(s) == i,
    decreases s.len(),
{
    if s.len() == 0 || !is_ws_char(s[0]) {
    } else {
        assert(forall|j: int| 0 <= j < s.len() - 1 ==> s.skip(1)[j] == s[j + 1]);
        lemma_leading_ws_is(s.skip(1), i - 1);
    }
}

/// The length of the maximal non-whitespace prefix of `s`.
pub open spec fn token_len(s: Seq<char>) -> int
    decreases s.len(),
{
    if s.len() == 0 || is_ws_char(s[0]) {
        0
    } else {
        1 + token_len(s.skip(1))
    }
}

pub proof fn lemma_token_len(s: Seq<char>)
    ensures
        0 <= token_len(s) <= s.len(),
        token_len(s) < s.len() ==> is_ws_char(s[token_len(s)]),
        forall|j: int| 0 <= j < token_len(s) ==> !is_ws_char(s[j]),
    decreases s.len(),
{
    if s.len() == 0 || is_ws_char(s[0]) {
    } else {
        lemma_token_len(s.skip(1));
        assert forall|j: int| 0 <= j < token_len(s) implies !is_ws_char(s[j]) by {
            if j > 0 {
                assert(s.skip(1)[j - 1] == s[j]);
            }
        }
    }
}

pub proof fn lemma_token_len_is(s: Seq<char>, i: int)
    requires
        0 <= i <= s.len(),
        i < s.len() ==> is_ws_char(s[i]),
        forall|j: int| 0 <= j < i ==> !is_ws_char(s[j]),
    ensures
        token_len(s) == i,
    decreases s.len(),
{
    if s.len() == 0 || is_ws_char(s[0]) {
    } else {
        assert(forall|j: int| 0 <= j < s.len() - 1 ==> s.skip(1)[j] == s[j + 1]);
        lemma_token_len_is(s.skip(1), i - 1);
    }
}

/// Split `s` on whitespace runs and rejoin the tokens with single spaces,
/// dropping leading and trailing whitespace.
pub open spec fn collapse_ws(s: Seq<char>) -> Seq<char>
    decreases s.len(),
    via collapse_ws_decreases
{
    let k = leading_ws(s);
    if !(0 <= k && k < s.len()) {
        Seq::empty()
    } else {
        let u = s.skip(k);
        let t = token_len(u);
        let tok = u.subrange(0, t);
        let r = collapse_ws(u.skip(t));
        if r.len() == 0 {
            tok
        } else {
            tok + seq![' '] + r
        }
    }
}

#[via_fn]
proof fn collapse_ws_decreases(s: Seq<char>) {
    let k = leading_ws(s);
    lemma_leading_ws(s);
    if 0 <= k && k < s.len() {
        let u = s.skip(k);
        lemma_token_len(u);
        assert(u[0] == s[k]);
        assert(token_len(u) >= 1);
    }
}

/// The normalization applied to every extracted text value: markup spans
/// removed, then whitespace collapsed.
pub open spec fn clean(s: Seq<char>) -> Seq<char> {
    collapse_ws(strip_tags(s))
}

/// Strip `<...>` spans from a character vector.
fn strip_tags_vec(s: &Vec<char>) -> (r: Vec<char>)
    ensures
        r@ == strip_tags(s@),
{
    let n = s.len();
    let mut out: Vec<char> = Vec::new();
    let mut i: usize = 0;
    proof {
        assert(s@.skip(0) =~= s@);
        assert(out@ + strip_tags(s@) =~= strip_tags(s@));
    }
    while i < n
        invariant
            n == s@.len(),
            0 <= i <= n,
            strip_tags(s@) == out@ + strip_tags(s@.skip(i as int)),
        decreases n - i,
    {
        let c = s[i];
        if c != '<' {
            out.push(c);
            proof {
                assert(s@.skip(i as int)[0] == c);
                assert(s@.skip(i as int).skip(1) =~= s@.skip(i + 1));
                assert(strip_tags(s@.skip(i as int)) == seq![c] + strip_tags(s@.skip(i + 1)));
                assert(out@ + strip_tags(s@.skip(i + 1)) =~= strip_tags(s@));
            }
            i += 1;
        } else {
            // scan for the first '>' at or after i
            let mut j: usize = i;
            let mut found: bool = false;
            while j < n && !found
                invariant
                    n == s@.len(),
                    i <= j <= n,
                    !found ==> forall|k: int| i <= k < j ==> s@[k] != '>',
                    found ==> j < n && s@[j as int] == '>' && (forall|k: int|
                        i <= k < j ==> s@[k] != '>'),
                decreases n - j + (if found { 0int } else { 1int }),
            {
                if s[j] == '>' {
                    found = true;
                } else {
                    j += 1;
                }
            }
            let ghost u = s@.skip(i as int);
            proof {
                assert(forall|k: int| 0 <= k < u.len() ==> u[k] == s@[i + k]);
            }
            if found {
                proof {
                    lemma_index_of_is(u, '>', j - i);
                    assert(u.skip(j - i + 1) =~= s@.skip(j + 1));
                    assert(strip_tags(u) == strip_tags(s@.skip(j + 1)));
                }
                i = j + 1;
            } else {
                proof {
                    lemma_index_of_is(u, '>', u.len() as int);
                    assert(strip_tags(u) == u);
                }
                // no closing '>': keep the remainder untouched
                while i < n
                    invariant
                        n == s@.len(),
                        0 <= i <= n,
                        strip_tags(s@) == out@ + s@.skip(i as int),
                    decreases n - i,
                {
                    out.push(s[i]);
                    proof {
                        assert(s@.skip(i as int) =~= seq![s@[i as int]] + s@.skip(i + 1));
                    }
                    i += 1;
                }
                proof {
                    assert(s@.skip(n as int) =~= Seq::<char>::empty());
                    assert(out@ =~= strip_tags(s@));
                }
                return out;
            }
        }
    }
    proof {
        assert(s@.skip(n as int) =~= Seq::<char>::empty());
        assert(strip_tags(s@.skip(n as int)) =~= Seq::<char>::empty());
        assert(out@ =~= strip_tags(s@));
    }
    out
}

/// `collapse_ws(s)` restated one step at a time: skipping one leading
/// whitespace character leaves the result unchanged.
proof fn lemma_collapse_skip_ws(s: Seq<char>)
    requires
        s.len() > 0,
        is_ws_char(s[0]),
    ensures
        collapse_ws(s) == collapse_ws(s.skip(1)),
{
    lemma_leading_ws(s);
    lemma_leading_ws(s.skip(1));
    let k = leading_ws(s);
    assert(k == 1 + leading_ws(s.skip(1)));
    if k < s.len() {
        assert(s.skip(k) =~= s.skip(1).skip(k - 1));
    } else {
        assert(leading_ws(s.skip(1)) == s.skip(1).len());
    }
}

/// Collapse whitespace runs in a character vector.
fn collapse_ws_vec(s: &Vec<char>) -> (r: Vec<char>)
    ensures
        r@ == collapse_ws(s@),
{
    let n = s.len();
    let mut out: Vec<char> = Vec::new();
    let mut i: usize = 0;
    proof {
        assert(s@.skip(0) =~= s@);
    }
    while i < n
        invariant
            n == s@.len(),
            0 <= i <= n,
            out@.len() == 0 ==> collapse_ws(s@) == collapse_ws(s@.skip(i as int)),
            out@.len() > 0 ==> collapse_ws(s@) == glue(out@, collapse_ws(s@.skip(i as int))),
            out@.len() > 0 ==> !is_ws_char(out@.last()),
        decreases n - i,
    {
        if is_ws(s[i]) {
            proof {
                lemma_collapse_skip_ws(s@.skip(i as int));
                assert(s@.skip(i as int).skip(1) =~= s@.skip(i + 1));
            }
            i += 1;
        } else {
            let ghost u = s@.skip(i as int);
            proof {
                assert(u[0] == s@[i as int] && !is_ws_char(u[0]));
                lemma_leading_ws_is(u, 0);
                lemma_token_len(u);
                assert(u.skip(0) =~= u);
            }
            let ghost t = token_len(u);
            // copy the token, preceded by a separator when needed
            let ghost prev = out@;
            if out.len() > 0 {
                out.push(' ');
            }
            let ghost base = out@;
            let ghost i0 = i;
            while i < n && !is_ws(s[i])
                invariant
                    n == s@.len(),
                    i0 <= i <= n,
                    out@ == base + s@.subrange(i0 as int, i as int),
                    forall|k: int| i0 <= k < i ==> !is_ws_char(s@[k]),
                decreases n - i,
            {
                let c = s[i];
                out.push(c);
                proof {
                    assert(base + s@.subrange(i0 as int, i + 1) =~= (base + s@.subrange(
                        i0 as int,
                        i as int,
                    )).push(c));
                }
                i += 1;
            }
            proof {
                assert(forall|k: int| 0 <= k < u.len() ==> u[k] == s@[i0 + k]);
                lemma_token_len_is(u, i - i0);
                let tok = u.subrange(0, t);
                assert(tok.len() == t >= 1);
                assert(tok =~= s@.subrange(i0 as int, i as int));
                assert(u.skip(t) =~= s@.skip(i as int));
                let r = collapse_ws(s@.skip(i as int));
                assert(collapse_ws(u) == (if r.len() == 0 {
                    tok
                } else {
                    tok + seq![' '] + r
                }));
                if prev.len() == 0 {
                    assert(base =~= prev);
                    assert(out@ =~= tok);
                    assert(glue(out@, r) =~= collapse_ws(u));
                } else {
                    assert(base =~= prev + seq![' ']);
                    assert(out@ =~= prev + seq![' '] + tok);
                    assert(collapse_ws(u).len() > 0);
                    assert(collapse_ws(s@) == glue(prev, collapse_ws(u)));
                    assert(glue(prev, collapse_ws(u)) =~= glue(out@, r)) by {
                        if r.len() == 0 {
                            assert(glue(prev, collapse_ws(u)) =~= prev + seq![' '] + tok);
                        } else {
                            assert(glue(prev, collapse_ws(u)) =~= prev + seq![' '] + (tok
                                + seq![' '] + r));
                            assert(glue(out@, r) =~= (prev + seq![' '] + tok) + seq![' '] + r);
                            assert(prev + seq![' '] + (tok + seq![' '] + r) =~= (prev + seq![' ']
                                + tok) + seq![' '] + r);
                        }
                    };
                }
                assert(out@.len() > 0);
                assert(out@.last() == tok.last());
                assert(!is_ws_char(out@.last()));
            }
        }
    }
    proof {
        assert(s@.skip(n as int) =~= Seq::<char>::empty());
        lemma_leading_ws(s@.skip(n as int));
        assert(collapse_ws(s@.skip(n as int)) =~= Seq::<char>::empty());
        if out@.len() > 0 {
            assert(glue(out@, collapse_ws(s@.skip(n as int))) =~= out@);
        } else {
            assert(out@ =~= collapse_ws(s@));
        }
    }
    out
}

/// `a` followed by `b`, with a single space between when both are nonempty.
pub open spec fn glue(a: Seq<char>, b: Seq<char>) -> Seq<char> {
    if b.len() == 0 {
        a
    } else if a.len() == 0 {
        b
    } else {
        a + seq![' '] + b
    }
}

/// The number of trailing whitespace characters of `s`.
pub open spec fn trailing_ws(s: Seq<char>) -> int
    decreases s.len(),
{
    if s.len() == 0 || !is_ws_char(s.last()) {
        0
    } else {
        1 + trailing_ws(s.drop_last())
    }
}

pub proof fn lemma_trailing_ws_is(s: Seq<char>, i: int)
    requires
        0 <= i <= s.len(),
        i > 0 ==> !is_ws_char(s[i - 1]),
        forall|j: int| i <= j < s.len() ==> is_ws_char(s[j]),
    ensures
        trailing_ws(s) == s.len() - i,
    decreases s.len(),
{
    if s.len() == 0 || !is_ws_char(s.last()) {
    } else {
        assert(forall|j: int| 0 <= j < s.len() - 1 ==> s.drop_last()[j] == s[j]);
        lemma_trailing_ws_is(s.drop_last(), i);
    }
}

/// `s` with leading and trailing whitespace removed.
pub open spec fn trim_spec(s: Seq<char>) -> Seq<char> {
    if leading_ws(s) == s.len() {
        Seq::empty()
    } else {
        s.subrange(leading_ws(s), s.len() - trailing_ws(s))
    }
}

/// Removes leading and trailing whitespace from a character vector.
pub fn trim_chars(s: &Vec<char>) -> (r: Vec<char>)
    ensures
        r@ == trim_spec(s@),
{
    let n = s.len();
    let mut a: usize = 0;
    while a < n && is_ws(s[a])
        invariant
            n == s@.len(),
            0 <= a <= n,
            forall|j: int| 0 <= j < a ==> is_ws_char(s@[j]),
        decreases n - a,
    {
        a += 1;
    }
    proof {
        lemma_leading_ws_is(s@, a as int);
    }
    if a == n {
        let r: Vec<char> = Vec::new();
        return r;
    }
    let mut b: usize = n;
    while b > a && is_ws(s[b - 1])
        invariant
            n == s@.len(),
            a < b <= n,
            !is_ws_char(s@[a as int]),
            forall|j: int| b <= j < n ==> is_ws_char(s@[j]),
        decreases b,
    {
        b -= 1;
    }
    proof {
        assert(b > a);
        assert(!is_ws_char(s@[b - 1]));
        lemma_trailing_ws_is(s@, b as int);
    }
    let mut out: Vec<char> = Vec::new();
    let mut i: usize = a;
    while i < b
        invariant
            n == s@.len(),
            a <= i <= b <= n,
            out@ == s@.subrange(a as int, i as int),
        decreases b - i,
    {
        out.push(s[i]);
        proof {
            assert(s@.subrange(a as int, i + 1) =~= s@.subrange(a as int, i as int).push(
                s@[i as int],
            ));
        }
        i += 1;
    }
    out
}

/// No `<` in `t` is followed (strictly later) by a `>`.
pub open spec fn no_tag_pair(t: Seq<char>) -> bool {
    forall|i: int, j: int| 0 <= i < j < t.len() && t[i] == '<' ==> t[j] != '>'
}

/// Stripping leaves no removable span behind.
proof fn lemma_strip_no_pair(s: Seq<char>)
    ensures
        no_tag_pair(strip_tags(s)),
    decreases s.len(),
{
    if s.len() == 0 {
    } else if s[0] == '<' {
        let j = index_of(s, '>');
        lemma_index_of(s, '>');
        if 0 <= j && j < s.len() {
            lemma_strip_no_pair(s.skip(j + 1));
        } else {
            assert(forall|k: int| 0 <= k < s.len() ==> s[k] != '>');
        }
    } else {
        lemma_strip_no_pair(s.skip(1));
        let t = strip_tags(s);
        let r = strip_tags(s.skip(1));
        assert(t == seq![s[0]] + r);
        assert forall|i: int, j: int| 0 <= i < j < t.len() && t[i] == '<' implies t[j] != '>' by {
            assert(i > 0 ==> t[i] == r[i - 1]);
            assert(t[j] == r[j - 1]);
        }
    }
}

/// A string with no removable span is left unchanged by stripping.
proof fn lemma_strip_fixed(t: Seq<char>)
    requires
        no_tag_pair(t),
    ensures
        strip_tags(t) == t,
    decreases t.len(),
{
    if t.len() == 0 {
    } else if t[0] == '<' {
        assert forall|k: int| 0 <= k < t.len() implies t[k] != '>' by {
            if k > 0 {
                assert(t[0] == '<');
            }
        }
        lemma_index_of_is(t, '>', t.len() as int);
    } else {
        assert forall|i: int, j: int|
            0 <= i < j < t.skip(1).len() && t.skip(1)[i] == '<' implies t.skip(1)[j] != '>' by {
            assert(t.skip(1)[i] == t[i + 1]);
            assert(t.skip(1)[j] == t[j + 1]);
        }
        lemma_strip_fixed(t.skip(1));
        assert(seq![t[0]] + t.skip(1) =~= t);
    }
}

/// `c` occurs somewhere in `t`.
pub open spec fn contains_char(t: Seq<char>, c: char) -> bool {
    exists|i: int| 0 <= i < t.len() && t[i] == c
}

/// Collapsing introduces no character other than the space.
proof fn lemma_collapse_contains(s: Seq<char>, c: char)
    requires
        c != ' ',
        contains_char(collapse_ws(s), c),
    ensures
        contains_char(s, c),
    decreases s.len(),
{
    let k = leading_ws(s);
    lemma_leading_ws(s);
    if 0 <= k && k < s.len() {
        let u = s.skip(k);
        let t = token_len(u);
        lemma_token_len(u);
        let tok = u.subrange(0, t);
        let rest = u.skip(t);
        let r = collapse_ws(rest);
        let cw = collapse_ws(s);
        let w = choose|i: int| 0 <= i < cw.len() && cw[i] == c;
        if w < t {
            assert(s[k + w] == c);
        } else if r.len() > 0 && w > t {
            assert(cw[w] == r[w - t - 1]);
            lemma_collapse_contains(rest, c);
            let m = choose|i: int| 0 <= i < rest.len() && rest[i] == c;
            assert(s[k + t + m] == c);
        }
    }
}

/// Collapsing preserves the absence of removable spans.
proof fn lemma_collapse_no_pair(s: Seq<char>)
    requires
        no_tag_pair(s),
    ensures
        no_tag_pair(collapse_ws(s)),
    decreases s.len(),
{
    let k = leading_ws(s);
    lemma_leading_ws(s);
    if 0 <= k && k < s.len() {
        let u = s.skip(k);
        let t = token_len(u);
        lemma_token_len(u);
        let tok = u.subrange(0, t);
        let rest = u.skip(t);
        assert(rest =~= s.skip(k + t));
        assert forall|i: int, j: int|
            0 <= i < j < rest.len() && rest[i] == '<' implies rest[j] != '>' by {
            assert(rest[i] == s[k + t + i]);
            assert(rest[j] == s[k + t + j]);
        }
        lemma_collapse_no_pair(rest);
        let r = collapse_ws(rest);
        let cw = collapse_ws(s);
        assert forall|i: int, j: int| 0 <= i < j < cw.len() && cw[i] == '<' implies cw[j]
            != '>' by {
            if r.len() == 0 {
                assert(cw[i] == s[k + i] && cw[j] == s[k + j]);
            } else {
                if i < t {
                    assert(cw[i] == s[k + i]);
                    if j < t {
                        assert(cw[j] == s[k + j]);
                    } else if j == t {
                        assert(cw[j] == ' ');
                    } else {
                        if cw[j] == '>' {
                            assert(r[j - t - 1] == '>');
                            lemma_collapse_contains(rest, '>');
                            let m = choose|q: int| 0 <= q < rest.len() && rest[q] == '>';
                            assert(s[k + t + m] == '>');
                            assert(false);
                        }
                    }
                } else if i == t {
                    assert(cw[i] == ' ');
                } else {
                    assert(cw[i] == r[i - t - 1]);
                    assert(j > t);
                    assert(cw[j] == r[j - t - 1]);
                }
            }
        }
    }
}

/// Whitespace is already in collapsed form: only single interior spaces.
pub open spec fn ws_canonical(t: Seq<char>) -> bool {
    forall|i: int|
        0 <= i < t.len() && is_ws_char(#[trigger] t[i]) ==> t[i] == ' ' && 0 < i && i + 1 < t.len()
            && !is_ws_char(t[i - 1]) && !is_ws_char(t[i + 1])
}

/// The result of collapsing has canonical whitespace.
proof fn lemma_collapse_canonical(s: Seq<char>)
    ensures
        ws_canonical(collapse_ws(s)),
    decreases s.len(),
{
    let k = leading_ws(s);
    lemma_leading_ws(s);
    if 0 <= k && k < s.len() {
        let u = s.skip(k);
        let t = token_len(u);
        lemma_token_len(u);
        let tok = u.subrange(0, t);
        let rest = u.skip(t);
        lemma_collapse_canonical(rest);
        let r = collapse_ws(rest);
        let cw = collapse_ws(s);
        assert(forall|j: int| 0 <= j < t ==> !is_ws_char(tok[j]));
        if r.len() > 0 {
            assert(!is_ws_char(r[0]));
            assert(!is_ws_char(r[r.len() - 1]));
            assert forall|i: int| 0 <= i < cw.len() && is_ws_char(#[trigger] cw[i]) implies cw[i]
                == ' ' && 0 < i && i + 1 < cw.len() && !is_ws_char(cw[i - 1]) && !is_ws_char(
                cw[i + 1],
            ) by {
                if i < t {
                    assert(cw[i] == tok[i]);
                    assert(false);
                } else if i == t {
                    assert(cw[i] == ' ');
                    assert(cw[i - 1] == tok[t - 1]);
                    assert(cw[i + 1] == r[0]);
                } else {
                    assert(cw[i] == r[i - t - 1]);
                    assert(i - t - 1 > 0);
                    assert(cw[i - 1] == r[i - t - 2]);
                    assert(i + 1 < cw.len());
                    assert(cw[i + 1] == r[i - t]);
                }
            }
        } else {
            assert(cw == tok);
            assert(forall|i: int| 0 <= i < cw.len() ==> !is_ws_char(#[trigger] cw[i]));
        }
    }
}

/// A string with canonical whitespace is left unchanged by collapsing.
proof fn lemma_collapse_fixed(t: Seq<char>)
    requires
        ws_canonical(t),
    ensures
        collapse_ws(t) == t,
    decreases t.len(),
{
    if t.len() == 0 {
        lemma_leading_ws(t);
    } else {
        assert(!is_ws_char(t[0]));
        lemma_leading_ws_is(t, 0);
        assert(t.skip(0) =~= t);
        let tl = token_len(t);
        lemma_token_len(t);
        let tok = t.subrange(0, tl);
        if tl == t.len() {
            assert(t.skip(tl).len() == 0);
            lemma_leading_ws(t.skip(tl));
            assert(collapse_ws(t.skip(tl)) =~= Seq::<char>::empty());
            assert(collapse_ws(t) == tok);
            assert(tok =~= t);
        } else {
            assert(is_ws_char(t[tl]));
            assert(t[tl] == ' ' && 0 < tl && tl + 1 < t.len() && !is_ws_char(t[tl + 1]));
            let suf = t.skip(tl + 1);
            assert forall|i: int| 0 <= i < suf.len() && is_ws_char(#[trigger] suf[i]) implies suf[i]
                == ' ' && 0 < i && i + 1 < suf.len() && !is_ws_char(suf[i - 1]) && !is_ws_char(
                suf[i + 1],
            ) by {
                assert(suf[i] == t[tl + 1 + i]);
                assert(0 < tl + 1 + i && tl + 1 + i + 1 < t.len());
                assert(!is_ws_char(t[tl + i]) && !is_ws_char(t[tl + 2 + i]));
                assert(tl + 1 + i > tl + 1) by {
                    if i == 0 {
                        assert(!is_ws_char(t[tl + 1]));
                        assert(false);
                    }
                }
                assert(suf[i - 1] == t[tl + i] && suf[i + 1] == t[tl + 2 + i]);
            }
            lemma_collapse_fixed(suf);
            let mid = t.skip(tl);
            lemma_collapse_skip_ws(mid);
            assert(mid.skip(1) =~= suf);
            assert(collapse_ws(mid) == suf);
            assert(suf.len() > 0);
            assert(collapse_ws(t) == tok + seq![' '] + suf);
            assert(tok + seq![' '] + suf =~= t);
        }
    }
}

/// Normalization is idempotent: cleaning already-cleaned text returns it
/// unchanged.
pub proof fn lemma_clean_idempotent(s: Seq<char>)
    ensures
        clean(clean(s)) == clean(s),
{
    lemma_strip_no_pair(s);
    lemma_collapse_no_pair(strip_tags(s));
    lemma_collapse_canonical(strip_tags(s));
    lemma_strip_fixed(clean(s));
    lemma_collapse_fixed(clean(s));
}

/// Cleans text by removing `<...>` markup spans, then collapsing whitespace
/// runs to single spaces and trimming the ends.
pub fn clean_text(text: &str) -> (r: String)
    ensures
        r@ == clean(text@),
{
    let cs = str_to_chars(text);
    let stripped = strip_tags_vec(&cs);
    let collapsed = collapse_ws_vec(&stripped);
    chars_to_string(&collapsed)
}

} // verus!
