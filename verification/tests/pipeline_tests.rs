use applecast::{
    clean_text, extract_from_json_ld, extract_metadata, find_transcript_url, metadata_to_json,
    validate_url, Metadata,
};

/// Unit test - Valid URL passes validation
#[test]
fn test_validate_url_accepts_valid_url() {
    let url = "https://podcasts.apple.com/us/podcast/id840986946?i=1000631244436";
    assert!(validate_url(url).is_ok());
}

/// Unit test - Invalid URL fails validation
#[test]
fn test_validate_url_rejects_invalid_url() {
    let url = "not-a-valid-url";
    assert!(validate_url(url).is_err());
}

/// Unit test - HTTP URLs are valid
#[test]
fn test_validate_url_accepts_http() {
    let url = "http://example.com";
    assert!(validate_url(url).is_ok());
}

/// Unit test - Empty string fails validation
#[test]
fn test_validate_url_rejects_empty_string() {
    let url = "";
    assert!(validate_url(url).is_err());
}

/// Unit test - Error message includes the invalid URL
#[test]
fn test_validate_url_error_includes_url() {
    let url = "not-valid";
    let result = validate_url(url);
    assert!(result.is_err());
    assert!(result.unwrap_err().contains("not-valid"));
}

/// Unit test - Metadata struct serializes to JSON correctly
#[test]
fn test_metadata_serialization() {
    // Given a Metadata struct with sample data
    let metadata = Metadata {
        episode_title: "Test Episode".to_string(),
        description: "This is a test description".to_string(),
        show_title: "Test Show".to_string(),
        publish_date: "2023-10-13".to_string(),
    };

    // When we serialize it to JSON
    let json = metadata_to_json(&metadata);

    // Then it contains all the expected fields
    assert!(json.contains("episode_title"));
    assert!(json.contains("Test Episode"));
    assert!(json.contains("description"));
    assert!(json.contains("This is a test description"));
    assert!(json.contains("show_title"));
    assert!(json.contains("Test Show"));
    assert!(json.contains("publish_date"));
    assert!(json.contains("2023-10-13"));
}

/// Unit test - clean_text removes HTML tags and trims whitespace
#[test]
fn test_clean_text_removes_html_tags() {
    // Given text with HTML tags
    let text = "<p>Hello <strong>World</strong></p>";

    // When we clean it
    let cleaned = clean_text(text);

    // Then HTML tags are removed
    assert_eq!(cleaned, "Hello World");
}

/// Unit test - clean_text normalizes whitespace
#[test]
fn test_clean_text_normalizes_whitespace() {
    // Given text with extra whitespace
    let text = "  Hello    World  \n  Test  ";

    // When we clean it
    let cleaned = clean_text(text);

    // Then whitespace is normalized
    assert_eq!(cleaned, "Hello World Test");
}

/// Unit test - extract_metadata extracts from a full episode page
#[test]
fn test_extract_metadata_from_real_html() {
    // Given an episode page carrying a structured-data block
    let html = r#"
        <!DOCTYPE html>
        <html>
        <head>
            <meta property="og:title" content="A Longer Episode Title">
            <script id="schema:episode" type="application/ld+json">
            {
                "name": "A Longer Episode Title",
                "description": "An episode description with substance",
                "datePublished": "2023-10-13",
                "partOfSeries": {
                    "name": "A Podcast Show"
                }
            }
            </script>
        </head>
        <body></body>
        </html>
    "#;

    // When we extract metadata
    let result = extract_metadata(html);

    // Then it succeeds
    assert!(result.is_ok(), "extract_metadata should succeed");

    let metadata = result.unwrap();

    // And all fields are non-empty
    assert!(
        !metadata.episode_title.is_empty(),
        "Episode title should not be empty"
    );
    assert!(
        !metadata.description.is_empty(),
        "Description should not be empty"
    );
    assert!(
        !metadata.show_title.is_empty(),
        "Show title should not be empty"
    );
    assert!(
        !metadata.publish_date.is_empty(),
        "Publish date should not be empty"
    );

    // And the values have reasonable content (any episode will do)
    assert!(
        metadata.episode_title.len() > 5,
        "Episode title should have substantial content"
    );
    assert!(
        metadata.show_title.len() > 3,
        "Show title should have substantial content"
    );
    assert!(
        metadata.publish_date.contains("-"),
        "Publish date should be in date format"
    );
}

/// Unit test - extract_from_json_ld parses JSON-LD schema correctly
#[test]
fn test_extract_from_json_ld() {
    // Given HTML with a JSON-LD schema
    let html = r#"
        <!DOCTYPE html>
        <html>
        <head>
            <script id="schema:episode" type="application/ld+json">
            {
                "name": "Test Episode Title",
                "description": "Test episode description",
                "datePublished": "2023-01-15",
                "partOfSeries": {
                    "name": "Test Podcast Show"
                }
            }
            </script>
        </head>
        <body></body>
        </html>
    "#;

    // When we parse it
    let result = extract_from_json_ld(html);

    // Then it succeeds
    assert!(result.is_ok(), "extract_from_json_ld should succeed");

    let metadata = result.unwrap();

    // And all fields are extracted correctly
    assert_eq!(metadata.episode_title, "Test Episode Title");
    assert_eq!(metadata.description, "Test episode description");
    assert_eq!(metadata.show_title, "Test Podcast Show");
    assert_eq!(metadata.publish_date, "2023-01-15");
}

/// Unit test - find_transcript_url returns None when transcript not available
#[test]
fn test_find_transcript_url_returns_none_when_not_available() {
    // Given HTML without transcript data
    let html = r#"
        <script type="application/json" id="serialized-server-data">
        [{"data": {"episode": {"title": "Test"}}}]
        </script>
    "#;

    // When we search for a transcript URL
    let result = find_transcript_url(html);

    // Then it should return None
    assert!(result.is_none(), "Should return None when no transcript");
}

/// Unit test - find_transcript_url extracts valid ttml URL
#[test]
fn test_find_transcript_url_extracts_valid_url() {
    // Given HTML with transcript URL in serialized data (nested structure)
    let html = r#"<html><body><script type="application/json" id="serialized-server-data">[{"data":{"shelves":[{"items":[{"contextAction":{"episodeOffer":{"closedCaptions":{"url":"https://example.com/transcript.ttml"}}}}]}]}}]</script></body></html>"#;

    // When we extract the transcript URL
    let url = find_transcript_url(html);

    // Then it should return the URL
    assert!(url.is_some(), "Should find transcript URL");
    assert_eq!(url.unwrap(), "https://example.com/transcript.ttml");
}
