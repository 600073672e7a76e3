//! The primary metadata extractor: the episode-schema structured-data block,
//! parsed as JSON and projected onto the four metadata fields by fixed key
//! paths.

use vstd::prelude::*;
use crate::chars::{str_to_chars, chars_to_string};
use crate::html::{schema_text, schema_block};
use crate::jsonval::{JsonValue, JsonSpec, json_get, json_parse, parse_json, get_member, get_str, as_text};
use crate::metadata::{Metadata, MetadataSpec};
use crate::text::{trim_spec, trim_chars};

verus! {

/// The string value of the member of `j` named `key`, or the empty string
/// when the member is absent or not a string.
pub open spec fn text_at(j: JsonSpec, key: Seq<char>) -> Seq<char> {
    match as_text(json_get(j, key)) {
        Some(s) => s,
        None => Seq::empty(),
    }
}

/// The name of the series the episode belongs to: the `name` member of the
/// `partOfSeries` member.
pub open spec fn series_name(j: JsonSpec) -> Seq<char> {
    match json_get(j, "partOfSeries"@) {
        Some(ps) => text_at(ps, "name"@),
        None => Seq::empty(),
    }
}

/// The four metadata fields projected out of the structured-data document,
/// each trimmed of surrounding whitespace.
pub open spec fn jsonld_projection(j: JsonSpec) -> MetadataSpec {
    MetadataSpec {
        episode_title: trim_spec(text_at(j, "name"@)),
        description: trim_spec(text_at(j, "description"@)),
        show_title: trim_spec(series_name(j)),
        publish_date: trim_spec(text_at(j, "datePublished"@)),
    }
}

/// What the primary path yields on a page: the projection when the page has
/// a structured-data block that parses as JSON, nothing otherwise.
pub open spec fn primary_spec(h: Seq<char>) -> Option<MetadataSpec> {
    match schema_text(h) {
        Some(txt) => match json_parse(txt) {
            Some(j) => Some(jsonld_projection(j)),
            None => None,
        },
        None => None,
    }
}

/// The trimmed string member of `j` named `key`, empty when absent.
fn trimmed_text(j: &JsonValue, key: &str) -> (r: String)
    ensures
        r@ == trim_spec(text_at(j@, key@)),
{
    let got = match get_member(j, key) {
        Some(mem) => get_str(mem),
        None => None,
    };
    match got {
        Some(s) => {
            let cs = str_to_chars(s.as_str());
            let t = trim_chars(&cs);
            chars_to_string(&t)
        },
        None => String::new(),
    }
}

/// Extracts metadata from the page's structured-data block. Fails exactly
/// when the page has no such block or its content is not valid JSON; a
/// missing key yields an empty field, not a failure.
pub fn extract_from_json_ld(html: &str) -> (r: Result<Metadata, String>)
    ensures
        match r {
            Ok(m) => primary_spec(html@) == Some(m@),
            Err(_) => primary_spec(html@) is None,
        },
        schema_text(html@) is None ==> (r matches Err(e) && e@ == "JSON-LD schema not found"@),
        (schema_text(html@) matches Some(txt) && json_parse(txt) is None) ==> (r matches Err(e)
            && e@ == "Failed to parse JSON-LD"@),
{
    match schema_block(html) {
        Some(txt) => match parse_json(txt.as_str()) {
            Some(j) => {
                let episode_title = trimmed_text(&j, "name");
                let description = trimmed_text(&j, "description");
                let show_title = match get_member(&j, "partOfSeries") {
                    Some(ps) => trimmed_text(ps, "name"),
                    None => String::new(),
                };
                let publish_date = trimmed_text(&j, "datePublished");
                Ok(Metadata { episode_title, description, show_title, publish_date })
            },
            None => Err(String::from_str("Failed to parse JSON-LD")),
        },
        None => Err(String::from_str("JSON-LD schema not found")),
    }
}

} // verus!
