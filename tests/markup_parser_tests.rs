use cosmic_notifications::markup_parser::{parse_markup, segments_to_plain_text};

#[test]
fn test_plain_text() {
    let segments = parse_markup("Hello World");
    assert_eq!(segments.len(), 1);
    assert_eq!(segments[0].text, "Hello World");
    assert!(!segments[0].style.bold);
}

#[test]
fn test_bold_text() {
    let segments = parse_markup("Hello <b>Bold</b> World");
    assert_eq!(segments.len(), 3);
    assert_eq!(segments[0].text, "Hello ");
    assert!(!segments[0].style.bold);
    assert_eq!(segments[1].text, "Bold");
    assert!(segments[1].style.bold);
    assert_eq!(segments[2].text, " World");
    assert!(!segments[2].style.bold);
}

#[test]
fn test_italic_text() {
    let segments = parse_markup("Hello <i>Italic</i> World");
    assert_eq!(segments.len(), 3);
    assert!(segments[1].style.italic);
}

#[test]
fn test_underline_text() {
    let segments = parse_markup("Hello <u>Underline</u> World");
    assert_eq!(segments.len(), 3);
    assert!(segments[1].style.underline);
}

#[test]
fn test_nested_tags() {
    let segments = parse_markup("<b><i>Bold Italic</i></b>");
    assert_eq!(segments.len(), 1);
    assert!(segments[0].style.bold);
    assert!(segments[0].style.italic);
}

#[test]
fn test_link() {
    let segments = parse_markup(r#"Click <a href="https://example.com">here</a>"#);
    assert_eq!(segments.len(), 2);
    assert_eq!(segments[1].text, "here");
    assert_eq!(segments[1].link, Some("https://example.com".to_string()));
    assert!(segments[1].style.underline);
}

#[test]
fn test_entity_decoding() {
    let segments = parse_markup("&lt;script&gt; &amp; &quot;test&quot;");
    assert_eq!(segments[0].text, "<script> & \"test\"");
}

#[test]
fn test_strong_tag() {
    let segments = parse_markup("<strong>Strong</strong>");
    assert!(segments[0].style.bold);
}

#[test]
fn test_em_tag() {
    let segments = parse_markup("<em>Emphasis</em>");
    assert!(segments[0].style.italic);
}

#[test]
fn test_br_tag() {
    let segments = parse_markup("Line 1<br>Line 2");
    let text = segments_to_plain_text(&segments);
    assert!(text.contains('\n'));
}

#[test]
fn test_empty_string() {
    let segments = parse_markup("");
    assert!(segments.is_empty());
}

#[test]
fn test_complex_markup() {
    let html = r#"New message from <b>John</b>: <i>"Hello <u>there</u>!"</i>"#;
    let segments = parse_markup(html);
    assert!(!segments.is_empty());
    // Verify we can convert back to text
    let plain = segments_to_plain_text(&segments);
    assert!(plain.contains("John"));
    assert!(plain.contains("Hello"));
}
