//! Syntactic URL validation: the parse itself is done by an outside crate;
//! the contract pins a rejected class (no scheme separator at all) and an
//! accepted class (plain `http`/`https` URLs of a simple shape), and the
//! failure message carries the offending string verbatim.

use vstd::prelude::*;
use crate::chars::{seq_contains, lemma_contains_at};

verus! {

/// `s` has no `:` anywhere, so it cannot carry a URL scheme.
pub open spec fn has_no_colon(s: Seq<char>) -> bool {
    forall|i: int| 0 <= i < s.len() ==> s[i] != ':'
}

pub open spec fn is_lower_alpha(c: char) -> bool {
    0x61 <= c as u32 && c as u32 <= 0x7a
}

pub open spec fn is_alpha(c: char) -> bool {
    is_lower_alpha(c) || (0x41 <= c as u32 && c as u32 <= 0x5a)
}

pub open spec fn is_digit_char(c: char) -> bool {
    0x30 <= c as u32 && c as u32 <= 0x39
}

/// A character of a simple host: a lowercase letter or a label separator.
pub open spec fn is_host_char(c: char) -> bool {
    is_lower_alpha(c) || c == '.'
}

/// A character the simple path/query tail admits.
pub open spec fn is_path_char(c: char) -> bool {
    is_alpha(c) || is_digit_char(c) || c == '/' || c == '.' || c == '_' || c == '-' || c == '~'
        || c == '?' || c == '=' || c == '&'
}

/// A simple host: nonempty, lowercase letters in labels separated by single
/// dots, with no leading, trailing or doubled dot.
pub open spec fn is_simple_host(h: Seq<char>) -> bool {
    &&& h.len() > 0
    &&& forall|i: int| 0 <= i < h.len() ==> is_host_char(#[trigger] h[i])
    &&& h[0] != '.'
    &&& h[h.len() - 1] != '.'
    &&& forall|i: int| 0 <= i < h.len() - 1 && #[trigger] h[i] == '.' ==> h[i + 1] != '.'
}

/// The length of the maximal host-character prefix of `t`.
pub open spec fn host_span(t: Seq<char>) -> int
    decreases t.len(),
{
    if t.len() == 0 || !is_host_char(t[0]) {
        0
    } else {
        1 + host_span(t.skip(1))
    }
}

pub open spec fn starts_http(s: Seq<char>) -> bool {
    s.len() >= 7 && s[0] == 'h' && s[1] == 't' && s[2] == 't' && s[3] == 'p' && s[4] == ':'
        && s[5] == '/' && s[6] == '/'
}

pub open spec fn starts_https(s: Seq<char>) -> bool {
    s.len() >= 8 && s[0] == 'h' && s[1] == 't' && s[2] == 't' && s[3] == 'p' && s[4] == 's'
        && s[5] == ':' && s[6] == '/' && s[7] == '/'
}

/// After the scheme: a simple host, then either nothing or a `/` or `?`
/// opening a tail of simple path characters.
pub open spec fn simple_tail(t: Seq<char>) -> bool {
    let hl = host_span(t);
    &&& is_simple_host(t.subrange(0, hl))
    &&& forall|i: int| hl <= i < t.len() ==> is_path_char(#[trigger] t[i])
    &&& hl < t.len() ==> (t[hl] == '/' || t[hl] == '?')
}

/// A well-formed absolute `http` or `https` URL of a simple shape: scheme,
/// a plain lowercase host, and an unreserved path/query tail.
pub open spec fn is_simple_http_url(s: Seq<char>) -> bool {
    (starts_http(s) && simple_tail(s.skip(7))) || (starts_https(s) && simple_tail(s.skip(8)))
}

/// Whether the URL grammar accepts `s`.
pub uninterp spec fn url_accepts(s: Seq<char>) -> bool;

/// Relies on `url::Url::parse`, which parses per the WHATWG URL standard:
/// acceptance is a function of the string alone; a string with no `:` has
/// no scheme terminator, so parsing fails (no base URL is supplied); and a
/// plain `http`/`https` URL — lowercase-letter host labels separated by
/// single dots, then an optional `/`- or `?`-led tail of unreserved
/// path/query characters — parses without error.
#[verifier::external_body]
fn url_parse_ok(s: &str) -> (r: bool)
    ensures
        r == url_accepts(s@),
        has_no_colon(s@) ==> !r,
        is_simple_http_url(s@) ==> r,
{
    url::Url::parse(s).is_ok()
}

/// Validates that the string is a well-formed URL. Success is exactly the
/// URL grammar's acceptance; any string without a `:` is rejected, every
/// simple absolute `http`/`https` URL is accepted, and a failure message
/// contains the rejected string verbatim.
pub fn validate_url(url_str: &str) -> (r: Result<(), String>)
    ensures
        r is Ok <==> url_accepts(url_str@),
        has_no_colon(url_str@) ==> r is Err,
        is_simple_http_url(url_str@) ==> r is Ok,
        r matches Err(e) ==> seq_contains(e@, url_str@),
{
    if url_parse_ok(url_str) {
        Ok(())
    } else {
        let mut msg = String::from_str("Invalid URL format: '");
        msg.append(url_str);
        msg.append("'");
        proof {
            let pre = "Invalid URL format: '"@;
            assert(msg@ == pre + url_str@ + "'"@);
            assert(msg@.subrange(pre.len() as int, (pre.len() + url_str@.len()) as int)
                =~= url_str@);
            lemma_contains_at(msg@, url_str@, pre.len() as int);
        }
        Err(msg)
    }
}

} // verus!
