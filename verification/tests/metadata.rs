use mdbook_metadata::{metadata_to_html, parse_metadata, MetadataError, MetadataMap};
use std::collections::BTreeMap;
use std::collections::HashSet;

#[test]
fn test_parse_metadata_without_metadata_block() {
    let content = "This is a test chapter content without metadata.";

    let (metadata, content_without_metadata) = parse_metadata(content, false).unwrap();

    assert!(metadata.is_empty(), "Expected metadata to be empty");
    assert_eq!(
        content_without_metadata, content,
        "Content should remain unchanged"
    );
}

#[test]
fn test_parse_metadata_with_valid_metadata_block() {
    let content_with_metadata = r#"---
title: Test Chapter
keywords: rust, testing, mdbook
released: true
---

This is the chapter content."#;

    let (metadata, content_without_metadata) =
        parse_metadata(content_with_metadata, false).unwrap();

    assert_eq!(
        metadata.get("title"),
        Some(&"Test Chapter".to_string()),
        "Title should be 'Test Chapter'"
    );
    assert_eq!(
        metadata.get("keywords"),
        Some(&"rust, testing, mdbook".to_string()),
        "Keywords should be 'rust, testing, mdbook'"
    );
    assert_eq!(
        metadata.get("released"),
        Some(&"true".to_string()),
        "Released should be 'true'"
    );

    let expected_content = "This is the chapter content.";
    assert_eq!(
        content_without_metadata, expected_content,
        "Content should not include metadata block"
    );
}

#[test]
fn test_parse_metadata_with_bad_indentation() {
    let content_with_badly_indented_metadata = r#"---
    title: Test Chapter
   keywords:   rust, testing, mdbook
    released :true
---

This is the chapter content."#;

    let (metadata, content_without_metadata) =
        parse_metadata(content_with_badly_indented_metadata, false).unwrap();

    assert_eq!(
        metadata.get("title"),
        Some(&"Test Chapter".to_string()),
        "Title should be 'Test Chapter'"
    );
    assert_eq!(
        metadata.get("keywords"),
        Some(&"rust, testing, mdbook".to_string()),
        "Keywords should be 'rust, testing, mdbook'"
    );
    assert_eq!(
        metadata.get("released"),
        Some(&"true".to_string()),
        "Released should be 'true'"
    );

    let expected_content = "This is the chapter content.";
    assert_eq!(
        content_without_metadata, expected_content,
        "Content should not include metadata block"
    );
}

#[test]
fn test_parse_metadata_with_bad_metadata_block() {
    let content_with_bad_metadata = r#"---
title = Incorrect Format
keywords = rust, testing, mdbook
released = false
---

This is the chapter content."#;

    let result = parse_metadata(content_with_bad_metadata, false);

    assert!(
        result.is_err(),
        "Expected an error due to bad metadata block format"
    );

    if let Err(MetadataError::ImproperlyFormattedLine(line)) = result {
        assert_eq!(
            line, "title = Incorrect Format",
            "Expected error for the improperly formatted line"
        );
    } else {
        panic!("Expected an ImproperlyFormattedLine error");
    }
}

#[test]
fn test_parse_metadata_with_duplicate_keys() {
    let content_with_duplicate_keys = r#"---
title: First Title
keywords: first, set
title: Second Title
keywords: second, set
---

Chapter content."#;

    let (metadata, content_without_metadata) =
        parse_metadata(content_with_duplicate_keys, true).unwrap();

    assert_eq!(
        content_without_metadata, "Chapter content.",
        "The content should exclude the metadata block."
    );

    assert_eq!(
        metadata.get("title"),
        Some(&"Second Title".to_string()),
        "The 'title' key should reflect the last occurrence."
    );
    assert_eq!(
        metadata.get("keywords"),
        Some(&"second, set".to_string()),
        "The 'keywords' key should reflect the last occurrence."
    );

    assert_eq!(
        metadata.len(),
        2,
        "The metadata HashMap should only contain two entries, one for each unique key."
    );
}

#[test]
fn test_metadata_to_html_basic() {
    let mut metadata = MetadataMap::new();
    metadata.insert("title".to_string(), "Example Title".to_string());
    metadata.insert("keywords".to_string(), "rust, mdbook, testing".to_string());
    metadata.insert("author".to_string(), "John Doe".to_string());

    let html_output = metadata_to_html(&metadata);

    assert!(
        html_output.contains("<title>Example Title</title>"),
        "Output should contain title tag."
    );
    assert!(
        html_output.contains("<meta name=\"keywords\" content=\"rust, mdbook, testing\">"),
        "Output should contain keywords meta tag."
    );
    assert!(
        html_output.contains("<meta name=\"author\" content=\"John Doe\">"),
        "Output should contain author meta tag."
    );
}

#[test]
fn test_metadata_to_html_empty() {
    let metadata = MetadataMap::new();

    let html_output = metadata_to_html(&metadata);

    assert!(
        html_output.is_empty(),
        "HTML output should be empty for empty metadata."
    );
}

#[test]
fn test_metadata_to_html_complex() {
    let mut metadata = MetadataMap::new();
    metadata.insert(
        "title".to_string(),
        "Complex & <Special> 'Characters'".to_string(),
    );
    metadata.insert(
        "description".to_string(),
        r#"Testing "quotes" and other <html> elements"#.to_string(),
    );
    metadata.insert(
        "keywords".to_string(),
        r#"rust,mdbook,"special, characters",<html>"#.to_string(),
    );

    let html_output = metadata_to_html(&metadata);

    let expected_outputs = [
        r#"<title>Complex &amp; &lt;Special&gt; &#x27;Characters&#x27;</title>"#,
        r#"<meta name="description" content="Testing &quot;quotes&quot; and other &lt;html&gt; elements">"#,
        r#"<meta name="keywords" content="rust,mdbook,&quot;special, characters&quot;,&lt;html&gt;">"#,
    ];

    // Split the output by newline and collect into a set for order-independent comparison
    let html_output_set: HashSet<_> = html_output.lines().collect();
    let expected_output_set: HashSet<_> = expected_outputs.iter().cloned().collect();

    assert_eq!(
        html_output_set, expected_output_set,
        "The HTML output should correctly handle special characters and HTML content, order-independent."
    );
}

#[test]
fn test_metadata_to_html_xss_prevention() {
    let mut metadata = MetadataMap::new();
    metadata.insert("title".to_string(), "Safe Title".to_string());
    metadata.insert(
        "script_injection".to_string(),
        "<script>alert('XSS');</script>".to_string(),
    );

    let html_output = metadata_to_html(&metadata);

    // Expected outputs should escape the <, >, and other special HTML characters
    let expected_outputs = [
        r#"<title>Safe Title</title>"#,
        // Include the encoded forward slash in the expected output
        r#"<meta name="script_injection" content="&lt;script&gt;alert(&#x27;XSS&#x27;);&lt;&#x2F;script&gt;">"#,
    ];

    let html_output_set: HashSet<_> = html_output.lines().collect();
    let expected_output_set: HashSet<_> = expected_outputs.iter().cloned().collect();

    assert_eq!(
        html_output_set, expected_output_set,
        "The HTML output should escape potential XSS injection attempts, ensuring code safety."
    );
}

#[test]
fn test_metadata_to_html_malicious_code() {
    let mut metadata = MetadataMap::new();
    metadata.insert("title".to_string(), "Normal Title".to_string());
    // Attempted JavaScript injection
    metadata.insert(
        "description".to_string(),
        r#"<script>alert("malicious code");</script>"#.to_string(),
    );

    let html_output = metadata_to_html(&metadata);

    let expected_outputs = [
        r#"<title>Normal Title</title>"#,
        r#"<meta name="description" content="&lt;script&gt;alert(&quot;malicious code&quot;);&lt;&#x2F;script&gt;">"#,
    ];

    let html_output_set: HashSet<_> = html_output.lines().collect();
    let expected_output_set: HashSet<_> = expected_outputs.iter().cloned().collect();

    assert_eq!(
        html_output_set, expected_output_set,
        "The HTML output should escape potentially malicious code."
    );
}

#[test]
fn test_metadata_to_html_complex_structures() {
    let mut nested_map = BTreeMap::new();
    nested_map.insert("nested_key", vec!["value1", "value2"]);

    let mut metadata = MetadataMap::new();
    metadata.insert("title".to_string(), "Complex Structures".to_string());
    metadata.insert("complex".to_string(), format!("{:?}", nested_map));

    let html_output = metadata_to_html(&metadata);

    let expected_html_tags = vec![
        "<title>Complex Structures</title>",
        r#"<meta name="complex" content="{&quot;nested_key&quot;: [&quot;value1&quot;, &quot;value2&quot;]}">"#,
    ].into_iter().map(String::from).collect::<HashSet<_>>();

    let output_html_tags = html_output
        .lines()
        .map(String::from)
        .collect::<HashSet<_>>();

    assert_eq!(
        output_html_tags, expected_html_tags,
        "The HTML output should correctly handle and escape complex structures."
    );
}

#[test]
fn test_metadata_to_html_large_volume() {
    let mut metadata = MetadataMap::new();
    for i in 0..1000 {
        metadata.insert(format!("key_{}", i), format!("value_{}", i));
    }

    let html_output = metadata_to_html(&metadata);

    for i in 0..1000 {
        let expected_key = format!("key_{}", i);
        let expected_value = format!("value_{}", i);
        let expected_tag = format!(
            "<meta name=\"{}\" content=\"{}\">",
            expected_key, expected_value
        );

        assert!(
            html_output.contains(&expected_tag),
            "The HTML output should contain the metadata entry for key {}: {}",
            expected_key,
            expected_value
        );
    }

    assert!(
        !html_output.contains("<title>"),
        "The HTML output should not contain a title tag when not specified in the metadata."
    );
}
