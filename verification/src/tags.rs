//! The fallback metadata extractor: a scan over the page's meta elements in
//! document order, dispatching on the `property`, `name` and `itemprop`
//! attribute families with a first-write-wins policy, followed by a
//! heuristic that recovers the show title from `og:description`.

use vstd::prelude::*;
use crate::chars::{str_to_chars, chars_to_string, find_sub, find_sub_at, vec_range, lemma_find_sub};
use crate::html::{MetaSpec, doc_metas, meta_tags, view_opt};
use crate::metadata::{Metadata, MetadataSpec, empty_metadata};
use crate::text::{clean, trim_spec, clean_text, trim_chars};

verus! {

/// First write wins: an already-filled field is never overwritten, and a
/// missing `content` attribute writes nothing.
pub open spec fn fill(cur: Seq<char>, content: Option<Seq<char>>) -> Seq<char> {
    if cur.len() == 0 && content is Some {
        clean(content->0)
    } else {
        cur
    }
}

/// What one meta element contributes to the accumulated record.
pub open spec fn scan_step(acc: MetadataSpec, m: MetaSpec) -> MetadataSpec {
    if m.property is Some {
        let p = m.property->0;
        if p == "og:title"@ {
            MetadataSpec { episode_title: fill(acc.episode_title, m.content), ..acc }
        } else if p == "og:description"@ {
            MetadataSpec { description: fill(acc.description, m.content), ..acc }
        } else if p == "og:site_name"@ {
            MetadataSpec { show_title: fill(acc.show_title, m.content), ..acc }
        } else {
            acc
        }
    } else if m.name is Some {
        let n = m.name->0;
        if n == "apple:title"@ {
            MetadataSpec { episode_title: fill(acc.episode_title, m.content), ..acc }
        } else if n == "description"@ || n == "apple:description"@ {
            MetadataSpec { description: fill(acc.description, m.content), ..acc }
        } else {
            acc
        }
    } else if m.itemprop is Some {
        let ip = m.itemprop->0;
        if ip == "name"@ || ip == "headline"@ {
            MetadataSpec { episode_title: fill(acc.episode_title, m.content), ..acc }
        } else if ip == "description"@ {
            MetadataSpec { description: fill(acc.description, m.content), ..acc }
        } else if ip == "publisher"@ {
            MetadataSpec { show_title: fill(acc.show_title, m.content), ..acc }
        } else if ip == "datePublished"@ {
            MetadataSpec { publish_date: fill(acc.publish_date, m.content), ..acc }
        } else {
            acc
        }
    } else {
        acc
    }
}

/// The scan over all meta elements, in document order.
pub open spec fn scan_metas(ms: Seq<MetaSpec>, acc: MetadataSpec) -> MetadataSpec
    decreases ms.len(),
{
    if ms.len() == 0 {
        acc
    } else {
        scan_metas(ms.skip(1), scan_step(acc, ms[0]))
    }
}

/// The index of the first meta element whose `property` is
/// `og:description`, or `ms.len()` if there is none.
pub open spec fn og_desc_index(ms: Seq<MetaSpec>) -> int
    decreases ms.len(),
{
    if ms.len() == 0 {
        0
    } else if ms[0].property == Some("og:description"@) {
        0
    } else {
        1 + og_desc_index(ms.skip(1))
    }
}

proof fn lemma_og_desc_index_is(ms: Seq<MetaSpec>, i: int)
    requires
        0 <= i <= ms.len(),
        i < ms.len() ==> ms[i].property == Some("og:description"@),
        forall|j: int| 0 <= j < i ==> ms[j].property != Some("og:description"@),
    ensures
        og_desc_index(ms) == i,
    decreases ms.len(),
{
    if ms.len() == 0 {
    } else if ms[0].property == Some("og:description"@) {
    } else {
        assert(forall|j: int| 0 <= j < ms.len() - 1 ==> ms.skip(1)[j] == ms[j + 1]);
        lemma_og_desc_index_is(ms.skip(1), i - 1);
    }
}

/// The separator on which a combined `og:description` is split.
pub open spec fn delim() -> Seq<char> {
    " · "@
}

/// The second part of `c` split on the delimiter, if `c` splits into at
/// least two parts.
pub open spec fn split_second(c: Seq<char>) -> Option<Seq<char>> {
    match find_sub(c, delim(), 0) {
        Some(i) => {
            let rest = c.skip(i + delim().len());
            match find_sub(rest, delim(), 0) {
                Some(j) => Some(rest.subrange(0, j)),
                None => Some(rest),
            }
        },
        None => None,
    }
}

/// The show-title recovery pass: when the scan left `show_title` empty, the
/// first `og:description` content is split on the delimiter and the trimmed
/// second part is taken, when the split yields one.
pub open spec fn show_heuristic(ms: Seq<MetaSpec>, acc: MetadataSpec) -> MetadataSpec {
    if acc.show_title.len() == 0 {
        let k = og_desc_index(ms);
        if k < ms.len() && ms[k].content is Some {
            match split_second(ms[k].content->0) {
                Some(part) => MetadataSpec { show_title: trim_spec(part), ..acc },
                None => acc,
            }
        } else {
            acc
        }
    } else {
        acc
    }
}

/// The whole fallback path over the page's meta elements.
pub open spec fn fallback_spec(ms: Seq<MetaSpec>) -> MetadataSpec {
    show_heuristic(ms, scan_metas(ms, empty_metadata()))
}

/// String equality against a literal.
fn is_lit(s: &String, lit: &str) -> (r: bool)
    ensures
        r == (s@ == lit@),
{
    let l = String::from_str(lit);
    *s == l
}

/// Fill an empty target field from a meta element's `content`.
fn fill_field(cur: &mut String, content: &Option<String>)
    ensures
        final(cur)@ == fill(old(cur)@, view_opt(*content)),
{
    if cur.as_str().is_empty() {
        if let Some(c) = content {
            *cur = clean_text(c.as_str());
        }
    }
}

/// Extracts metadata from the page's meta elements as a fallback: the scan
/// in document order with first-write-wins, then the show-title heuristic.
pub fn extract_from_meta_tags(html: &str) -> (r: Metadata)
    ensures
        r@ == fallback_spec(doc_metas(html@)),
{
    let tags = meta_tags(html);
    let ghost dm = doc_metas(html@);
    let mut meta = Metadata::new();
    let n = tags.len();
    let mut i: usize = 0;
    proof {
        assert(dm.skip(0) =~= dm);
    }
    while i < n
        invariant
            n == tags@.len() == dm.len(),
            forall|k: int| 0 <= k < n ==> #[trigger] tags@[k]@ == dm[k],
            0 <= i <= n,
            scan_metas(dm, empty_metadata()) == scan_metas(dm.skip(i as int), meta@),
        decreases n - i,
    {
        let ghost before = meta@;
        let tag = &tags[i];
        if let Some(p) = &tag.property {
            if is_lit(p, "og:title") {
                fill_field(&mut meta.episode_title, &tag.content);
            } else if is_lit(p, "og:description") {
                fill_field(&mut meta.description, &tag.content);
            } else if is_lit(p, "og:site_name") {
                fill_field(&mut meta.show_title, &tag.content);
            }
        } else if let Some(nm) = &tag.name {
            if is_lit(nm, "apple:title") {
                fill_field(&mut meta.episode_title, &tag.content);
            } else if is_lit(nm, "description") || is_lit(nm, "apple:description") {
                fill_field(&mut meta.description, &tag.content);
            }
        } else if let Some(ip) = &tag.itemprop {
            if is_lit(ip, "name") || is_lit(ip, "headline") {
                fill_field(&mut meta.episode_title, &tag.content);
            } else if is_lit(ip, "description") {
                fill_field(&mut meta.description, &tag.content);
            } else if is_lit(ip, "publisher") {
                fill_field(&mut meta.show_title, &tag.content);
            } else if is_lit(ip, "datePublished") {
                fill_field(&mut meta.publish_date, &tag.content);
            }
        }
        proof {
            assert(tags@[i as int]@ == dm[i as int]);
            assert(meta@ == scan_step(before, dm[i as int]));
            assert(dm.skip(i as int)[0] == dm[i as int]);
            assert(dm.skip(i as int).skip(1) =~= dm.skip(i + 1));
        }
        i += 1;
    }
    proof {
        assert(dm.skip(n as int) =~= Seq::<MetaSpec>::empty());
        assert(scan_metas(dm, empty_metadata()) == meta@);
    }
    // show-title recovery from the first og:description element
    if meta.show_title.as_str().is_empty() {
        let mut k: usize = 0;
        let mut found: bool = false;
        while k < n && !found
            invariant
                n == tags@.len() == dm.len(),
                forall|j: int| 0 <= j < n ==> #[trigger] tags@[j]@ == dm[j],
                0 <= k <= n,
                !found ==> forall|j: int|
                    0 <= j < k ==> dm[j].property != Some("og:description"@),
                found ==> k < n && dm[k as int].property == Some("og:description"@) && (forall|
                    j: int,
                |
                    0 <= j < k ==> dm[j].property != Some("og:description"@)),
            decreases n - k + (if found { 0int } else { 1int }),
        {
            proof {
                assert(tags@[k as int]@ == dm[k as int]);
            }
            let hit = match &tags[k].property {
                Some(p) => is_lit(p, "og:description"),
                None => false,
            };
            proof {
                assert(hit == (dm[k as int].property == Some("og:description"@)));
            }
            if hit {
                found = true;
            } else {
                k += 1;
            }
        }
        proof {
            if found {
                lemma_og_desc_index_is(dm, k as int);
            } else {
                lemma_og_desc_index_is(dm, n as int);
            }
        }
        if found {
            proof {
                assert(tags@[k as int]@ == dm[k as int]);
            }
            if let Some(c) = &tags[k].content {
                let cs = str_to_chars(c.as_str());
                let d = str_to_chars(" · ");
                let cn = cs.len();
                proof {
                    lemma_find_sub(cs@, d@, 0);
                }
                if let Some(p0) = find_sub_at(&cs, &d, 0) {
                    let rest = vec_range(&cs, p0 + d.len(), cn);
                    proof {
                        assert(rest@ =~= cs@.skip(p0 + delim().len()));
                        lemma_find_sub(rest@, d@, 0);
                    }
                    let part = match find_sub_at(&rest, &d, 0) {
                        Some(j) => vec_range(&rest, 0, j),
                        None => rest,
                    };
                    let trimmed = trim_chars(&part);
                    meta.show_title = chars_to_string(&trimmed);
                }
            }
        }
    }
    meta
}

} // verus!
