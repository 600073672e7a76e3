use applecast::{
    check_http_status, clean_text, extract_from_json_ld, extract_from_meta_tags, extract_metadata,
    find_transcript_url, metadata_to_json, validate_url, Metadata,
};

/// Normalizing already-normalized text returns it unchanged.
#[test]
fn test_clean_text_is_idempotent() {
    let messy = "  <em>Some</em>   text \t with <a href='x'>markup</a>\nand   runs  ";
    let once = clean_text(messy);
    let twice = clean_text(&once);
    assert_eq!(once, twice);
}

/// An unclosed tag stops the removal and the remainder is kept.
#[test]
fn test_clean_text_keeps_unclosed_tag() {
    assert_eq!(clean_text("a <b unclosed"), "a <b unclosed");
    assert_eq!(clean_text("keep > this"), "keep > this");
    assert_eq!(clean_text(""), "");
}

/// Strings without a scheme separator are rejected.
#[test]
fn test_validate_url_rejects_schemeless_strings() {
    assert!(validate_url("example.com/path").is_err());
    assert!(validate_url("just words").is_err());
    let err = validate_url("").unwrap_err();
    assert!(err.contains("''"));
}

/// The tag scanner fills fields from the three attribute families.
#[test]
fn test_extract_from_meta_tags_families() {
    let html = r#"
        <html><head>
            <meta property="og:title" content="Tag Title">
            <meta name="description" content="Tag &lt;b&gt;description&lt;/b&gt;">
            <meta itemprop="datePublished" content="2024-02-02">
            <meta property="og:site_name" content="Tag Show">
        </head><body></body></html>
    "#;
    let m = extract_from_meta_tags(html);
    assert_eq!(m.episode_title, "Tag Title");
    assert_eq!(m.description, "Tag description");
    assert_eq!(m.show_title, "Tag Show");
    assert_eq!(m.publish_date, "2024-02-02");
}

/// The name family: the app-specific title override and description names.
#[test]
fn test_extract_from_meta_tags_name_family() {
    let html = r#"
        <html><head>
            <meta name="apple:title" content="Apple Title">
            <meta name="apple:description" content="Apple Description">
        </head><body></body></html>
    "#;
    let m = extract_from_meta_tags(html);
    assert_eq!(m.episode_title, "Apple Title");
    assert_eq!(m.description, "Apple Description");
}

/// The itemprop family: headline and publisher fill title and show.
#[test]
fn test_extract_from_meta_tags_itemprop_family() {
    let html = r#"
        <html><head>
            <meta itemprop="headline" content="Headline Title">
            <meta itemprop="publisher" content="The Publisher">
            <meta itemprop="description" content="Itemprop Description">
        </head><body></body></html>
    "#;
    let m = extract_from_meta_tags(html);
    assert_eq!(m.episode_title, "Headline Title");
    assert_eq!(m.show_title, "The Publisher");
    assert_eq!(m.description, "Itemprop Description");
}

/// An element with a property attribute is dispatched on it alone: its name
/// and itemprop attributes are not consulted.
#[test]
fn test_extract_from_meta_tags_property_shadows_name() {
    let html = r#"
        <html><head>
            <meta property="og:unknown" name="apple:title" content="Shadowed">
        </head><body></body></html>
    "#;
    let m = extract_from_meta_tags(html);
    assert_eq!(m.episode_title, "");
}

/// First write wins: a later element never overwrites a filled field.
#[test]
fn test_extract_from_meta_tags_first_write_wins() {
    let html = r#"
        <html><head>
            <meta property="og:title" content="First Title">
            <meta property="og:title" content="Second Title">
            <meta name="apple:title" content="Third Title">
        </head><body></body></html>
    "#;
    let m = extract_from_meta_tags(html);
    assert_eq!(m.episode_title, "First Title");
}

/// The show title is recovered from the middle part of og:description.
#[test]
fn test_extract_from_meta_tags_show_heuristic() {
    let html = r#"
        <html><head>
            <meta property="og:description" content="Podcast Episode · Show Name · 2023">
        </head><body></body></html>
    "#;
    let m = extract_from_meta_tags(html);
    assert_eq!(m.show_title, "Show Name");
    assert_eq!(m.description, "Podcast Episode · Show Name · 2023");
}

/// Without at least two delimiter-separated parts the heuristic leaves the
/// show title empty.
#[test]
fn test_extract_from_meta_tags_heuristic_needs_delimiter() {
    let html = r#"
        <html><head>
            <meta property="og:description" content="No delimiter here">
        </head><body></body></html>
    "#;
    let m = extract_from_meta_tags(html);
    assert_eq!(m.show_title, "");
}

/// A document with no structured-data block falls back to the tag scan
/// without a fatal error.
#[test]
fn test_extract_metadata_falls_back_without_schema() {
    let html = r#"
        <html><head>
            <meta property="og:title" content="Fallback Title">
        </head><body></body></html>
    "#;
    let result = extract_metadata(html);
    assert!(result.is_ok());
    assert_eq!(result.unwrap().episode_title, "Fallback Title");
}

/// The primary result is used wholesale: its empty fields are not filled in
/// from the meta tags.
#[test]
fn test_extract_metadata_never_merges_paths() {
    let html = r#"
        <html><head>
            <meta property="og:site_name" content="Meta Show">
            <script id="schema:episode" type="application/ld+json">
            {"name": "Schema Title"}
            </script>
        </head><body></body></html>
    "#;
    let m = extract_metadata(html).unwrap();
    assert_eq!(m.episode_title, "Schema Title");
    assert_eq!(m.show_title, "");
}

/// A structured-data block that is not valid JSON triggers the fallback.
#[test]
fn test_extract_metadata_falls_back_on_bad_json() {
    let html = r#"
        <html><head>
            <script id="schema:episode" type="application/ld+json">not json</script>
            <meta property="og:title" content="Fallback Again">
        </head><body></body></html>
    "#;
    let err = extract_from_json_ld(html).unwrap_err();
    assert_eq!(err, "Failed to parse JSON-LD");
    let m = extract_metadata(html).unwrap();
    assert_eq!(m.episode_title, "Fallback Again");
}

/// A page without the block reports it.
#[test]
fn test_extract_from_json_ld_reports_missing_schema() {
    let err = extract_from_json_ld("<html><body></body></html>").unwrap_err();
    assert_eq!(err, "JSON-LD schema not found");
}

/// Schema values are trimmed, and missing keys yield empty fields.
#[test]
fn test_extract_from_json_ld_trims_and_defaults() {
    let html = r#"
        <html><head>
            <script id="schema:episode" type="application/ld+json">
            {"name": "  Padded Title  ", "datePublished": 20230115}
            </script>
        </head><body></body></html>
    "#;
    let m = extract_from_json_ld(html).unwrap();
    assert_eq!(m.episode_title, "Padded Title");
    assert_eq!(m.description, "");
    // a non-string value is treated as absent
    assert_eq!(m.publish_date, "");
}

/// The first closedCaptions.url in search order wins.
#[test]
fn test_find_transcript_url_first_match_wins() {
    let html = r#"<script type="application/json" id="serialized-server-data">[{"a":{"closedCaptions":{"url":"https://example.com/first.ttml"}}},{"closedCaptions":{"url":"https://example.com/second.ttml"}}]</script>"#;
    let url = find_transcript_url(html);
    assert_eq!(url.unwrap(), "https://example.com/first.ttml");
}

/// A closedCaptions entry without a string url is skipped, and the search
/// descends into it.
#[test]
fn test_find_transcript_url_descends_into_non_match() {
    let html = r#"<script type="application/json" id="serialized-server-data">{"closedCaptions":{"inner":{"closedCaptions":{"url":"https://example.com/nested.ttml"}}}}</script>"#;
    let url = find_transcript_url(html);
    assert_eq!(url.unwrap(), "https://example.com/nested.ttml");
}

/// A payload that is not valid JSON yields None, not an error.
#[test]
fn test_find_transcript_url_bad_payload_is_none() {
    let html = r#"<script type="application/json" id="serialized-server-data">{broken</script>"#;
    assert!(find_transcript_url(html).is_none());
}

/// A page without the payload marker yields None.
#[test]
fn test_find_transcript_url_no_marker_is_none() {
    assert!(find_transcript_url("<html><body>nothing here</body></html>").is_none());
}

/// The serialized metadata is a JSON document with exactly the four keys
/// and the exact field values, surviving characters that need escaping.
#[test]
fn test_metadata_json_round_trips_through_parser() {
    let metadata = Metadata {
        episode_title: "Quote \" and backslash \\".to_string(),
        description: "Line\nbreak\tand tab".to_string(),
        show_title: "".to_string(),
        publish_date: "2023-10-13".to_string(),
    };
    let json = metadata_to_json(&metadata);
    let parsed: serde_json::Value = serde_json::from_str(&json).unwrap();
    assert_eq!(parsed["episode_title"], "Quote \" and backslash \\");
    assert_eq!(parsed["description"], "Line\nbreak\tand tab");
    assert_eq!(parsed["show_title"], "");
    assert_eq!(parsed["publish_date"], "2023-10-13");
    let obj = parsed.as_object().unwrap();
    assert_eq!(obj.len(), 4);
}

/// 2xx statuses pass; anything else fails with the numeric code in the
/// message.
#[test]
fn test_check_http_status_classes() {
    assert!(check_http_status(200).is_ok());
    assert!(check_http_status(299).is_ok());
    let err = check_http_status(404).unwrap_err();
    assert_eq!(err, "HTTP request failed with status: 404");
    assert!(err.contains("404"));
    let err = check_http_status(301).unwrap_err();
    assert!(err.contains("301"));
    assert!(check_http_status(500).is_err());
}
