//! The metadata orchestrator: the structured-data path first; on any of its
//! failures, the tag-scan fallback, wholesale — the two results are never
//! merged field by field.

use vstd::prelude::*;
use crate::html::doc_metas;
use crate::jsonld::{primary_spec, extract_from_json_ld};
use crate::metadata::{Metadata, MetadataSpec};
use crate::tags::{fallback_spec, extract_from_meta_tags};

verus! {

/// The metadata a page yields: the primary projection when the primary path
/// succeeds, else the whole fallback result.
pub open spec fn extract_spec(h: Seq<char>) -> MetadataSpec {
    match primary_spec(h) {
        Some(m) => m,
        None => fallback_spec(doc_metas(h)),
    }
}

/// Extracts episode metadata from the page text: tries the structured-data
/// block first and, on its failure, runs the tag scan; exactly one of the
/// two results is returned.
pub fn extract_metadata(html: &str) -> (r: Result<Metadata, String>)
    ensures
        r matches Ok(m) && m@ == extract_spec(html@),
{
    match extract_from_json_ld(html) {
        Ok(m) => Ok(m),
        Err(_) => Ok(extract_from_meta_tags(html)),
    }
}

} // verus!
