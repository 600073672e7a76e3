//! Extraction pipeline for podcast episode pages: metadata extraction with a
//! structured-data primary path and a tag-scanning fallback, a transcript-URL
//! search over an embedded JSON payload, text normalization, URL validation,
//! and JSON rendering of the extracted metadata.

pub mod chars;
pub mod extract;
pub mod html;
pub mod jsonld;
pub mod jsonval;
pub mod metadata;
pub mod status;
pub mod tags;
pub mod text;
pub mod transcript;
pub mod urlcheck;

pub use extract::extract_metadata;
pub use jsonld::extract_from_json_ld;
pub use metadata::{Metadata, metadata_to_json};
pub use status::check_http_status;
pub use tags::extract_from_meta_tags;
pub use text::clean_text;
pub use transcript::find_transcript_url;
pub use urlcheck::validate_url;
