//! The transcript locator: finds the embedded serialized-server-data JSON
//! payload inside the page text, parses it, and searches it depth-first for
//! the first `closedCaptions.url` string.

use vstd::prelude::*;
use crate::chars::{str_to_chars, chars_to_string, matches_at, check_at, vec_range};
use crate::jsonval::{
    JsonValue, JsonSpec, json_get, json_parse, parse_json, get_member, get_str,
};

verus! {

broadcast use vstd::std_specs::vec::group_vec_axioms, vstd::seq::group_seq_axioms;

/// The opening marker of the embedded payload.
pub open spec fn pre_marker() -> Seq<char> {
    "<script type=\"application/json\" id=\"serialized-server-data\">"@
}

/// The closing marker of the embedded payload.
pub open spec fn close_marker() -> Seq<char> {
    "</script>"@
}

/// The first position at or after `q` where the closing marker occurs,
/// scanning over any characters except a line break: a line break before the
/// closing marker means no close for this opening.
pub open spec fn close_from(h: Seq<char>, q: int) -> Option<int>
    decreases h.len() - q,
{
    if q < 0 || q > h.len() {
        None
    } else if matches_at(h, close_marker(), q) {
        Some(q)
    } else if q < h.len() && h[q] == '\n' {
        None
    } else if q < h.len() {
        close_from(h, q + 1)
    } else {
        None
    }
}

/// The payload captured by the first opening marker at or after `p` that is
/// followed by a closing marker with no intervening line break.
pub open spec fn payload_from(h: Seq<char>, p: int) -> Option<Seq<char>>
    decreases h.len() - p,
{
    if p < 0 || p > h.len() {
        None
    } else if matches_at(h, pre_marker(), p) && close_from(h, p + pre_marker().len()) is Some {
        Some(h.subrange(p + pre_marker().len(), close_from(h, p + pre_marker().len())->0))
    } else if p < h.len() {
        payload_from(h, p + 1)
    } else {
        None
    }
}

/// The embedded payload of the whole page, if any.
pub open spec fn page_payload(h: Seq<char>) -> Option<Seq<char>> {
    payload_from(h, 0)
}

proof fn lemma_close_from_is(h: Seq<char>, from: int, q: int)
    requires
        0 <= from <= q,
        matches_at(h, close_marker(), q),
        forall|k: int| from <= k < q ==> !matches_at(h, close_marker(), k),
        forall|k: int| from <= k < q ==> h[k] != '\n',
    ensures
        close_from(h, from) == Some(q),
    decreases q - from,
{
    if from == q {
    } else {
        lemma_close_from_is(h, from + 1, q);
    }
}

proof fn lemma_close_from_none_nl(h: Seq<char>, from: int, m: int)
    requires
        0 <= from <= m < h.len(),
        h[m] == '\n',
        !matches_at(h, close_marker(), m),
        forall|k: int| from <= k < m ==> !matches_at(h, close_marker(), k),
        forall|k: int| from <= k < m ==> h[k] != '\n',
    ensures
        close_from(h, from) is None,
    decreases m - from,
{
    if from == m {
    } else {
        lemma_close_from_none_nl(h, from + 1, m);
    }
}

proof fn lemma_close_from_none_end(h: Seq<char>, from: int)
    requires
        0 <= from <= h.len(),
        close_marker().len() > 0,
        forall|k: int| from <= k < h.len() ==> !matches_at(h, close_marker(), k),
        forall|k: int| from <= k < h.len() ==> h[k] != '\n',
    ensures
        close_from(h, from) is None,
    decreases h.len() - from,
{
    if from < h.len() {
        lemma_close_from_none_end(h, from + 1);
    }
}

/// Locates the embedded payload in the page text.
fn find_payload(h: &Vec<char>) -> (r: Option<Vec<char>>)
    ensures
        match r {
            Some(pl) => page_payload(h@) == Some(pl@),
            None => page_payload(h@) is None,
        },
{
    let pre = str_to_chars("<script type=\"application/json\" id=\"serialized-server-data\">");
    let close = str_to_chars("</script>");
    proof {
        reveal_strlit("<script type=\"application/json\" id=\"serialized-server-data\">");
        reveal_strlit("</script>");
        assert(pre@.len() > 0 && close@.len() > 0);
    }
    let n = h.len();
    let mut p: usize = 0;
    while p < n
        invariant
            n == h@.len(),
            pre@ == pre_marker(),
            close@ == close_marker(),
            pre@.len() > 0,
            close@.len() > 0,
            0 <= p <= n,
            page_payload(h@) == payload_from(h@, p as int),
        decreases n - p,
    {
        if n - p >= pre.len() && check_at(h, &pre, p) {
            let q0 = p + pre.len();
            let mut q: usize = q0;
            let mut newline: bool = false;
            while q < n && !newline
                invariant
                    n == h@.len(),
                    close@ == close_marker(),
                    close@.len() > 0,
                    q0 <= q <= n,
                    p + pre@.len() == q0,
                    matches_at(h@, pre_marker(), p as int),
                    pre@ == pre_marker(),
                    page_payload(h@) == payload_from(h@, p as int),
                    p < n,
                    forall|k: int| q0 <= k < q ==> !matches_at(h@, close_marker(), k),
                    forall|k: int| q0 <= k < q ==> h@[k] != '\n',
                    newline ==> q < n && h@[q as int] == '\n' && !matches_at(
                        h@,
                        close_marker(),
                        q as int,
                    ),
                decreases n - q + (if newline {
                    0int
                } else {
                    1int
                }),
            {
                if n - q >= close.len() && check_at(h, &close, q) {
                    proof {
                        lemma_close_from_is(h@, q0 as int, q as int);
                    }
                    let pl = vec_range(h, q0, q);
                    return Some(pl);
                } else if h[q] == '\n' {
                    newline = true;
                } else {
                    q += 1;
                }
            }
            proof {
                if newline {
                    lemma_close_from_none_nl(h@, q0 as int, q as int);
                } else {
                    lemma_close_from_none_end(h@, q0 as int);
                }
                assert(close_from(h@, p + pre_marker().len()) is None);
            }
        }
        p += 1;
    }
    proof {
        assert(payload_from(h@, n as int) is None);
    }
    None
}

/// The first `closedCaptions.url` string of `v` itself, before any descent.
pub open spec fn captions_of(v: JsonSpec) -> Option<Seq<char>> {
    match json_get(v, "closedCaptions"@) {
        Some(cc) => match json_get(cc, "url"@) {
            Some(u) => match u {
                JsonSpec::Str(s) => Some(s),
                _ => None,
            },
            None => None,
        },
        None => None,
    }
}

/// Depth-first search for the first `closedCaptions.url` string: an object
/// is checked itself first, then its member values in order; an array's
/// elements are searched in order; scalars hold nothing.
pub open spec fn find_cc(v: JsonSpec) -> Option<Seq<char>>
    decreases v,
{
    match v {
        JsonSpec::Obj(fields) => if captions_of(v) is Some {
            captions_of(v)
        } else {
            find_cc_fields(fields)
        },
        JsonSpec::Arr(items) => find_cc_list(items),
        _ => None,
    }
}

pub open spec fn find_cc_fields(fields: Seq<(Seq<char>, JsonSpec)>) -> Option<Seq<char>>
    decreases fields,
    via find_cc_fields_decreases
{
    if fields.len() == 0 {
        None
    } else {
        match find_cc(fields[0].1) {
            Some(u) => Some(u),
            None => find_cc_fields(fields.subrange(1, fields.len() as int)),
        }
    }
}

#[via_fn]
proof fn find_cc_fields_decreases(fields: Seq<(Seq<char>, JsonSpec)>) {
    if fields.len() > 0 {
        assert(decreases_to!(fields => fields[0]));
        assert(decreases_to!(fields[0] => fields[0].1));
    }
}

pub open spec fn find_cc_list(items: Seq<JsonSpec>) -> Option<Seq<char>>
    decreases items,
{
    if items.len() == 0 {
        None
    } else {
        match find_cc(items[0]) {
            Some(u) => Some(u),
            None => find_cc_list(items.subrange(1, items.len() as int)),
        }
    }
}

/// Searches a parsed JSON value depth-first for the first
/// `closedCaptions.url` string, in the order `find_cc` describes.
pub fn find_captions(v: &JsonValue) -> (r: Option<String>)
    ensures
        match r {
            Some(s) => find_cc(v@) == Some(s@),
            None => find_cc(v@) is None,
        },
    decreases *v,
{
    match v {
        JsonValue::Obj(fields) => {
            if let Some(cc) = get_member(v, "closedCaptions") {
                if let Some(u) = get_member(cc, "url") {
                    if let Some(s) = get_str(u) {
                        return Some(s.clone());
                    }
                }
            }
            let ghost fv = v@->Obj_0;
            proof {
                crate::jsonval::lemma_json_model_fields(fields@);
                assert(v@ == JsonSpec::Obj(fv));
                assert(captions_of(v@) is None);
                assert(fv.skip(0) =~= fv);
                assert(decreases_to!(*v => (*v)->Obj_0));
                assert((*v)->Obj_0 == *fields);
                assert(decreases_to!(*fields => fields@));
                assert(decreases_to!(*v => fields@));
            }
            let n = fields.len();
            let mut i: usize = 0;
            while i < n
                invariant
                    v@ == JsonSpec::Obj(fv),
                    captions_of(v@) is None,
                    decreases_to!(*v => fields@),
                    fv == crate::jsonval::json_model_fields(fields@),
                    n == fields@.len() == fv.len(),
                    forall|k: int|
                        0 <= k < n ==> #[trigger] fv[k] == (
                        fields@[k].0@,
                        crate::jsonval::json_model(fields@[k].1),
                    ),
                    0 <= i <= n,
                    find_cc_fields(fv) == find_cc_fields(fv.skip(i as int)),
                decreases n - i,
            {
                proof {
                    assert(decreases_to!(fields@ => fields@[i as int]));
                    assert(decreases_to!(fields@[i as int] => fields@[i as int].1));
                }
                let sub = find_captions(&fields[i].1);
                proof {
                    assert(fv.skip(i as int)[0] == fv[i as int]);
                    assert(fv[i as int].1 == crate::jsonval::json_model(fields@[i as int].1));
                    assert(fv.skip(i as int).subrange(1, fv.skip(i as int).len() as int) =~= fv.skip(
                        i + 1,
                    ));
                }
                if sub.is_some() {
                    return sub;
                }
                i += 1;
            }
            proof {
                assert(fv.skip(n as int) =~= Seq::<(Seq<char>, JsonSpec)>::empty());
            }
            None
        },
        JsonValue::Arr(items) => {
            let ghost iv = v@->Arr_0;
            proof {
                crate::jsonval::lemma_json_model_list(items@);
                assert(v@ == JsonSpec::Arr(iv));
                assert(iv.skip(0) =~= iv);
                assert(decreases_to!(*v => (*v)->Arr_0));
                assert((*v)->Arr_0 == *items);
                assert(decreases_to!(*items => items@));
                assert(decreases_to!(*v => items@));
            }
            let n = items.len();
            let mut i: usize = 0;
            while i < n
                invariant
                    v@ == JsonSpec::Arr(iv),
                    decreases_to!(*v => items@),
                    iv == crate::jsonval::json_model_list(items@),
                    n == items@.len() == iv.len(),
                    forall|k: int|
                        0 <= k < n ==> #[trigger] iv[k] == crate::jsonval::json_model(items@[k]),
                    0 <= i <= n,
                    find_cc_list(iv) == find_cc_list(iv.skip(i as int)),
                decreases n - i,
            {
                proof {
                    assert(decreases_to!(items@ => items@[i as int]));
                }
                let sub = find_captions(&items[i]);
                proof {
                    assert(iv.skip(i as int)[0] == iv[i as int]);
                    assert(iv.skip(i as int).subrange(1, iv.skip(i as int).len() as int) =~= iv.skip(
                        i + 1,
                    ));
                }
                if sub.is_some() {
                    return sub;
                }
                i += 1;
            }
            proof {
                assert(iv.skip(n as int) =~= Seq::<JsonSpec>::empty());
            }
            None
        },
        _ => None,
    }
}

/// The transcript URL a page yields: the embedded payload, parsed as JSON,
/// searched depth-first; nothing when the payload is absent or malformed.
pub open spec fn transcript_url(h: Seq<char>) -> Option<Seq<char>> {
    match page_payload(h) {
        Some(pl) => match json_parse(pl) {
            Some(j) => find_cc(j),
            None => None,
        },
        None => None,
    }
}

/// Searches the page text for the transcript URL. Absence of the payload
/// and a payload that is not valid JSON both yield `None`.
pub fn find_transcript_url(html: &str) -> (r: Option<String>)
    ensures
        match r {
            Some(u) => transcript_url(html@) == Some(u@),
            None => transcript_url(html@) is None,
        },
{
    let hv = str_to_chars(html);
    match find_payload(&hv) {
        Some(pl) => {
            let s = chars_to_string(&pl);
            match parse_json(s.as_str()) {
                Some(j) => find_captions(&j),
                None => None,
            }
        },
        None => None,
    }
}

} // verus!
