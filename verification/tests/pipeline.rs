use mdbook_metadata::text::{char_is_whitespace, chars_of};
use mdbook_metadata::{
    extract_block, filter_tags, malformed_lines, metadata_to_html, parse_line, parse_lines,
    parse_metadata, skipped_lines, Chapter, Metadata, MetadataError, MetadataMap, NAME,
};

fn map_of(pairs: &[(&str, &str)]) -> MetadataMap {
    let mut m = MetadataMap::new();
    for (k, v) in pairs {
        m.insert(k.to_string(), v.to_string());
    }
    m
}

fn entries(m: &MetadataMap) -> Vec<(String, String)> {
    (0..m.len())
        .map(|i| (m.key_at(i).clone(), m.value_at(i).clone()))
        .collect()
}

fn pair(k: &str, v: &str) -> (String, String) {
    (k.to_string(), v.to_string())
}

#[test]
fn whitespace_agrees_with_the_standard_library() {
    for n in 0..=0x10FFFFu32 {
        if let Some(c) = char::from_u32(n) {
            assert_eq!(char_is_whitespace(c), c.is_whitespace(), "U+{:04X}", n);
        }
    }
}

#[test]
fn chars_of_lists_every_character() {
    assert_eq!(chars_of("a\u{e9}\u{4e16}-"), vec!['a', '\u{e9}', '\u{4e16}', '-']);
    assert_eq!(chars_of(""), Vec::<char>::new());
}

#[test]
fn scenario_title_block() {
    let input = "---\ntitle: Hello\n---\nBody text.";
    let (metadata, body) = parse_metadata(input, true).unwrap();
    assert_eq!(entries(&metadata), vec![pair("title", "Hello")]);
    assert_eq!(body, "Body text.");
    let out = Metadata::new(None, None).transform(input).unwrap();
    assert_eq!(out, "<title>Hello</title>\n\nBody text.");
}

#[test]
fn scenario_bad_line_strict_and_tolerant() {
    let input = "---\nbad line\n---\nBody.";
    match parse_metadata(input, false) {
        Err(MetadataError::ImproperlyFormattedLine(line)) => assert_eq!(line, "bad line"),
        Ok(_) => panic!("strict reading must fail"),
    }
    let (metadata, body) = parse_metadata(input, true).unwrap();
    assert!(metadata.is_empty());
    assert_eq!(body, "Body.");
    assert_eq!(Metadata::new(None, Some(true)).transform(input).unwrap(), "Body.");
    assert!(Metadata::new(None, Some(false)).transform(input).is_err());
}

#[test]
fn scenario_allow_list_keeps_title_only() {
    let input = "---\ntitle: T\nauthor: A\n---\nBody";
    let m = Metadata::new(Some(vec!["title".to_string()]), None);
    let out = m.transform(input).unwrap();
    assert_eq!(out, "<title>T</title>\n\nBody");
    assert!(!out.contains("author"));
}

#[test]
fn no_block_leaves_document_unchanged() {
    for doc in [
        "",
        "plain",
        "  leading space stays\n",
        "---\nonly one delimiter\n",
        "--- not a delimiter ---\nk: v\n--- \n",
        "----\nk: v\n----\n",
        "a---\nk: v\n---b\n",
    ] {
        let (metadata, body) = parse_metadata(doc, false).unwrap();
        assert!(metadata.is_empty(), "{:?}", doc);
        assert_eq!(body, doc);
        assert_eq!(Metadata::new(None, None).transform(doc).unwrap(), doc);
        let (interior, rest) = extract_block(doc);
        assert_eq!(interior, None);
        assert_eq!(rest, doc);
        assert!(skipped_lines(doc).is_empty());
    }
}

#[test]
fn extract_block_splits_document() {
    let (interior, body) = extract_block("---\na: 1\n\nb: 2\n---\n\n\n  Text\n---\nmore\n---\n");
    assert_eq!(interior.as_deref(), Some("\na: 1\n\nb: 2\n"));
    assert_eq!(body, "Text\n---\nmore\n---\n");
}

#[test]
fn extract_block_keeps_what_stands_before() {
    let (interior, body) = extract_block("# Head\n\n---\nk: v\n---\n\nrest");
    assert_eq!(interior.as_deref(), Some("\nk: v\n"));
    assert_eq!(body, "# Head\n\nrest");
}

#[test]
fn extract_block_with_carriage_returns() {
    let (interior, body) = extract_block("---\r\nk: v\r\n---\r\nrest\r\n");
    assert_eq!(interior.as_deref(), Some("\r\nk: v\r\n"));
    assert_eq!(body, "rest\r\n");
    let (metadata, _) = parse_metadata("---\r\nk: v\r\n---\r\nrest\r\n", false).unwrap();
    assert_eq!(entries(&metadata), vec![pair("k", "v")]);
}

#[test]
fn empty_block_and_block_at_end() {
    let (interior, body) = extract_block("---\n---");
    assert_eq!(interior.as_deref(), Some("\n"));
    assert_eq!(body, "");
    let (metadata, body) = parse_metadata("---\n---\n", false).unwrap();
    assert!(metadata.is_empty());
    assert_eq!(body, "");
}

#[test]
fn parse_line_shapes() {
    assert_eq!(parse_line("key: value"), Some(pair("key", "value")));
    assert_eq!(parse_line("  key  :   value  "), Some(pair("key", "value")));
    assert_eq!(parse_line("url: http://x.y/z"), Some(pair("url", "http://x.y/z")));
    assert_eq!(parse_line("k:v"), Some(pair("k", "v")));
    assert_eq!(parse_line("k: "), Some(pair("k", "")));
    assert_eq!(parse_line(" : v"), Some(pair("", "v")));
    assert_eq!(parse_line("k:"), None);
    assert_eq!(parse_line(":v"), None);
    assert_eq!(parse_line(":a:b"), None);
    assert_eq!(parse_line("no colon"), None);
    assert_eq!(parse_line(""), None);
    assert_eq!(parse_line("cl\u{e9}: \u{4e16}\u{754c}"), Some(pair("cl\u{e9}", "\u{4e16}\u{754c}")));
}

#[test]
fn padding_does_not_change_the_entry() {
    let plain = parse_line("key:value");
    for line in ["key: value", " key:value ", "\tkey \t:\u{a0} value\u{2003}", "key :value"] {
        assert_eq!(parse_line(line), plain, "{:?}", line);
    }
}

#[test]
fn parse_lines_last_declaration_wins() {
    let m = parse_lines("a: 1\nb: 2\na: 3\n\n   \nc: 4\nb: 5", false).unwrap();
    assert_eq!(entries(&m), vec![pair("a", "3"), pair("b", "5"), pair("c", "4")]);
    assert_eq!(m.len(), 3);
    assert_eq!(m.get("a"), Some(&"3".to_string()));
    assert_eq!(m.get("missing"), None);
    assert!(m.contains_key("c"));
    assert!(!m.contains_key("d"));
}

#[test]
fn parse_lines_strict_returns_first_malformed_line_untrimmed() {
    match parse_lines("a: 1\n  oops  \nb: 2\nworse\n", false) {
        Err(e) => {
            assert!(matches!(&e, MetadataError::ImproperlyFormattedLine(l) if l == "  oops  "));
            assert_eq!(e.message(), "Improperly formatted metadata line: '  oops  '");
        }
        Ok(_) => panic!("strict reading must fail"),
    }
}

#[test]
fn parse_lines_strict_drops_carriage_return_of_line_ending() {
    match parse_lines("oops\r\nk: v\r\n", false) {
        Err(MetadataError::ImproperlyFormattedLine(l)) => assert_eq!(l, "oops"),
        Ok(_) => panic!("strict reading must fail"),
    }
    match parse_lines("oops\r", false) {
        Err(MetadataError::ImproperlyFormattedLine(l)) => assert_eq!(l, "oops\r"),
        Ok(_) => panic!("strict reading must fail"),
    }
}

#[test]
fn parse_lines_tolerant_skips_malformed_lines() {
    let text = "a: 1\n  oops  \nb: 2\nworse\n";
    let tolerant = parse_lines(text, true).unwrap();
    let cleaned = parse_lines("a: 1\nb: 2\n", false).unwrap();
    assert_eq!(entries(&tolerant), entries(&cleaned));
    assert_eq!(entries(&tolerant), vec![pair("a", "1"), pair("b", "2")]);
    assert_eq!(malformed_lines(text), vec!["  oops  ".to_string(), "worse".to_string()]);
    assert_eq!(
        skipped_lines("---\nx = 1\ny: 2\n---\n"),
        vec!["x = 1".to_string()]
    );
}

#[test]
fn map_insert_overwrites_in_place() {
    let mut m = MetadataMap::new();
    assert!(m.is_empty());
    assert_eq!(m.insert("a".to_string(), "1".to_string()), None);
    assert_eq!(m.insert("b".to_string(), "2".to_string()), None);
    assert_eq!(m.insert("a".to_string(), "3".to_string()), Some("1".to_string()));
    assert_eq!(entries(&m), vec![pair("a", "3"), pair("b", "2")]);
    assert_eq!(m.len(), 2);
    assert!(!m.is_empty());
}

#[test]
fn filter_is_a_projection() {
    let m = map_of(&[("title", "T"), ("author", "A"), ("date", "D")]);
    let all = filter_tags(map_of(&[("title", "T"), ("author", "A")]), &None);
    assert_eq!(entries(&all), vec![pair("title", "T"), pair("author", "A")]);
    let some = filter_tags(m, &Some(vec!["date".to_string(), "title".to_string(), "x".to_string()]));
    assert_eq!(entries(&some), vec![pair("title", "T"), pair("date", "D")]);
    let none = filter_tags(map_of(&[("title", "T")]), &Some(vec![]));
    assert!(none.is_empty());
}

#[test]
fn rendering_is_exact_and_ordered() {
    let m = map_of(&[("author", "A & B"), ("title", "x < y"), ("Title", "a/b")]);
    assert_eq!(
        metadata_to_html(&m),
        "<meta name=\"author\" content=\"A &amp; B\">\n<title>x &lt; y</title>\n<meta name=\"Title\" content=\"a&#x2F;b\">\n"
    );
}

#[test]
fn rendering_escapes_every_special_character() {
    let m = map_of(&[("k", "&<>\"'/ plain \u{e9}")]);
    let html = metadata_to_html(&m);
    assert_eq!(
        html,
        "<meta name=\"k\" content=\"&amp;&lt;&gt;&quot;&#x27;&#x2F; plain \u{e9}\">\n"
    );
    let value = &html["<meta name=\"k\" content=\"".len()..html.len() - "\">\n".len()];
    assert!(!value.contains(['<', '>', '"', '\'', '/']));
    assert!(!value.contains("<script"));
}

#[test]
fn keys_are_not_escaped() {
    let m = map_of(&[("a<b", "v")]);
    assert_eq!(metadata_to_html(&m), "<meta name=\"a<b\" content=\"v\">\n");
}

#[test]
fn filtered_out_mapping_leaves_body_alone() {
    let input = "---\nauthor: A\n---\n\nBody\n";
    let m = Metadata::new(Some(vec!["title".to_string()]), None);
    assert_eq!(m.transform(input).unwrap(), "Body\n");
    assert_eq!(metadata_to_html(&MetadataMap::new()), "");
}

#[test]
fn default_policy_is_tolerant() {
    let input = "---\nbad\n---\nBody";
    assert!(Metadata::new(None, None).transform(input).is_ok());
    assert!(Metadata::new(None, Some(true)).transform(input).is_ok());
    assert!(Metadata::new(None, Some(false)).transform(input).is_err());
}

#[test]
fn name_is_fixed() {
    assert_eq!(Metadata::new(None, None).name(), "metadata-preprocessor");
    assert_eq!(NAME, "metadata-preprocessor");
}

fn chapter(name: &str, content: &str) -> Chapter {
    Chapter { name: name.to_string(), content: content.to_string() }
}

#[test]
fn run_transforms_every_chapter() {
    let mut chapters = vec![
        chapter("One", "---\ntitle: A\n---\nText one"),
        chapter("Two", "No block"),
    ];
    let r = Metadata::new(None, Some(false)).run(&mut chapters);
    assert_eq!(r, Ok(()));
    assert_eq!(chapters[0].name, "One");
    assert_eq!(chapters[0].content, "<title>A</title>\n\nText one");
    assert_eq!(chapters[1].content, "No block");
}

#[test]
fn run_reports_failures_in_order_and_keeps_their_text() {
    let bad_one = "---\nfirst bad\n---\nText";
    let bad_two = "---\nk: v\nsecond bad\n---\nText";
    let mut chapters = vec![
        chapter("One", bad_one),
        chapter("Two", "---\ntitle: B\n---\nText two"),
        chapter("Three", bad_two),
    ];
    let r = Metadata::new(None, Some(false)).run(&mut chapters);
    assert_eq!(
        r,
        Err("Error parsing metadata in chapter 'One': Improperly formatted metadata line: 'first bad'\n\
             Error parsing metadata in chapter 'Three': Improperly formatted metadata line: 'second bad'"
            .to_string())
    );
    assert_eq!(chapters[0].content, bad_one);
    assert_eq!(chapters[1].content, "<title>B</title>\n\nText two");
    assert_eq!(chapters[2].content, bad_two);
}

#[test]
fn run_on_no_chapters_succeeds() {
    let mut chapters: Vec<Chapter> = Vec::new();
    assert_eq!(Metadata::new(None, None).run(&mut chapters), Ok(()));
    assert!(chapters.is_empty());
}
