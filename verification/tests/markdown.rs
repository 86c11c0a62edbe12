use mdfrier::blocks::parse_sections;
use mdfrier::markdown::{detect_bare_urls, split_newlines, MdContent};
use mdfrier::modifier::Modifier;
use mdfrier::span::Span;

fn m(bits: u32) -> Modifier {
    Modifier::new(bits)
}

fn span(content: &str, bits: u32) -> Span {
    Span::new(content.to_owned(), m(bits))
}

#[test]
fn markdown_split_no_empty_spans() {
    let spans = split_newlines(vec![
        span("one line", 0),
        span(".", 0),
        span("\nanother line", Modifier::NEW_LINE),
        span(".", 0),
    ]);
    assert_eq!(
        spans,
        vec![
            span("one line", 0),
            span(".", 0),
            span("another line", Modifier::NEW_LINE),
            span(".", 0),
        ]
    );
}

#[test]
fn markdown_blockquote_blank_lines() {
    let sections = parse_sections("> First paragraph\n>\n> Second paragraph").unwrap();
    assert_eq!(sections.len(), 3);
    assert!(!sections[0].content.is_blank());
    assert!(sections[1].content.is_blank());
    assert!(!sections[2].content.is_blank());
}

#[test]
fn markdown_parse_header() {
    let sections = parse_sections("# Hello\n").unwrap();
    assert_eq!(sections.len(), 1);
    assert!(matches!(sections[0].content, MdContent::Header { tier: 1, .. }));
}

#[test]
fn detect_bare_url() {
    let result = detect_bare_urls(vec![span("Check https://example.com for more.", 0)]);
    assert_eq!(result.len(), 5);
    assert_eq!(result[0].content, "Check ");
    assert!(!result[0].modifiers.contains(Modifier::LINK_URL));
    assert_eq!(result[1].content, "(");
    assert!(result[1].modifiers.contains(Modifier::LINK_URL_WRAPPER));
    assert_eq!(result[2].content, "https://example.com");
    assert!(result[2].modifiers.contains(Modifier::LINK_URL));
    assert_eq!(result[3].content, ")");
    assert!(result[3].modifiers.contains(Modifier::LINK_URL_WRAPPER));
    assert_eq!(result[4].content, " for more.");
    assert!(!result[4].modifiers.contains(Modifier::LINK_URL));
}

#[test]
fn detect_bare_url_preserves_existing_modifiers() {
    let result = detect_bare_urls(vec![span("See https://example.com now", Modifier::EMPHASIS)]);
    assert_eq!(result.len(), 5);
    assert!(result[0].modifiers.contains(Modifier::EMPHASIS));
    assert!(result[1].modifiers.contains(Modifier::EMPHASIS));
    assert!(result[1].modifiers.contains(Modifier::LINK_URL_WRAPPER));
    assert!(result[2].modifiers.contains(Modifier::EMPHASIS));
    assert!(result[2].modifiers.contains(Modifier::LINK_URL));
    assert!(result[3].modifiers.contains(Modifier::EMPHASIS));
    assert!(result[3].modifiers.contains(Modifier::LINK_URL_WRAPPER));
    assert!(result[4].modifiers.contains(Modifier::EMPHASIS));
}

#[test]
fn detect_bare_url_skips_existing_links() {
    let spans = vec![span("https://example.com", Modifier::LINK | Modifier::LINK_URL)];
    let result = detect_bare_urls(spans.clone());
    assert_eq!(result, spans);
}

#[test]
fn detect_bare_url_skips_code() {
    let spans = vec![span("https://example.com", Modifier::CODE)];
    let result = detect_bare_urls(spans.clone());
    assert_eq!(result, spans);
}

#[test]
fn angle_bracket_url_preserved() {
    let result = detect_bare_urls(vec![span("<http://www.example.com>", 0)]);
    assert_eq!(result.len(), 5);
    assert_eq!(result[0].content, "<");
    assert_eq!(result[1].content, "(");
    assert!(result[1].modifiers.contains(Modifier::LINK_URL_WRAPPER));
    assert_eq!(result[2].content, "http://www.example.com");
    assert!(result[2].modifiers.contains(Modifier::LINK_URL));
    assert_eq!(result[3].content, ")");
    assert!(result[3].modifiers.contains(Modifier::LINK_URL_WRAPPER));
    assert_eq!(result[4].content, ">");
}

#[test]
fn split_newlines_breaks_one_span_into_lines() {
    let spans = split_newlines(vec![span("a\nb\n\nc", Modifier::EMPHASIS)]);
    assert_eq!(
        spans,
        vec![
            span("a", Modifier::EMPHASIS),
            span("b", Modifier::EMPHASIS | Modifier::NEW_LINE),
            span("c", Modifier::EMPHASIS | Modifier::NEW_LINE),
        ]
    );
}
