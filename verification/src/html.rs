//! The read-only view of a parsed page that the extractors work on: the text
//! of the episode-schema script element, and the page's meta elements with
//! the attributes the tag scanner inspects.

use vstd::prelude::*;

verus! {

/// One `meta` element of the page: the three attribute families the scanner
/// dispatches on, and the element's `content` attribute.
pub struct MetaTag {
    pub property: Option<String>,
    pub name: Option<String>,
    pub itemprop: Option<String>,
    pub content: Option<String>,
}

/// The mathematical view of a `MetaTag`.
pub ghost struct MetaSpec {
    pub property: Option<Seq<char>>,
    pub name: Option<Seq<char>>,
    pub itemprop: Option<Seq<char>>,
    pub content: Option<Seq<char>>,
}

pub open spec fn view_opt(o: Option<String>) -> Option<Seq<char>> {
    match o {
        Some(s) => Some(s@),
        None => None,
    }
}

impl View for MetaTag {
    type V = MetaSpec;

    open spec fn view(&self) -> MetaSpec {
        MetaSpec {
            property: view_opt(self.property),
            name: view_opt(self.name),
            itemprop: view_opt(self.itemprop),
            content: view_opt(self.content),
        }
    }
}

/// The text content of the first `script` element whose `id` attribute is
/// `schema:episode`, if the document has one.
pub uninterp spec fn schema_text(h: Seq<char>) -> Option<Seq<char>>;

/// The page's `meta` elements in document order, reduced to the attributes
/// the tag scanner reads.
pub uninterp spec fn doc_metas(h: Seq<char>) -> Seq<MetaSpec>;

/// Relies on `scraper::Html::parse_document` and `scraper::Selector` with
/// the selector `script[id='schema:episode']`: returns the concatenated text
/// of the first matching element, a function of the document text alone.
#[verifier::external_body]
pub fn schema_block(html: &str) -> (r: Option<String>)
    ensures
        match r {
            Some(t) => schema_text(html@) == Some(t@),
            None => schema_text(html@) is None,
        },
{
    let doc = scraper::Html::parse_document(html);
    match scraper::Selector::parse("script[id='schema:episode']") {
        Ok(sel) => doc.select(&sel).next().map(|el| el.text().collect::<String>()),
        Err(_) => None,
    }
}

/// Relies on `scraper::Html::parse_document` and `scraper::Selector` with the
/// selector `meta`: returns every `meta` element in document order, keeping
/// the `property`, `name`, `itemprop` and `content` attributes; a function of
/// the document text alone.
#[verifier::external_body]
pub fn meta_tags(html: &str) -> (r: Vec<MetaTag>)
    ensures
        r@.len() == doc_metas(html@).len(),
        forall|i: int| 0 <= i < r@.len() ==> #[trigger] r@[i]@ == doc_metas(html@)[i],
{
    let doc = scraper::Html::parse_document(html);
    let mut out = Vec::new();
    if let Ok(sel) = scraper::Selector::parse("meta") {
        for el in doc.select(&sel) {
            out.push(MetaTag {
                property: el.attr("property").map(|a| a.to_string()),
                name: el.attr("name").map(|a| a.to_string()),
                itemprop: el.attr("itemprop").map(|a| a.to_string()),
                content: el.attr("content").map(|a| a.to_string()),
            });
        }
    }
    out
}

} // verus!
