use mdfrier::blocks::parse_sections;
use mdfrier::markdown::{MdContent, MdParagraph};
use mdfrier::modifier::Modifier;
use mdfrier::span::Span;

fn span(content: &str, bits: u32) -> Span {
    Span::new(content.to_owned(), Modifier::new(bits))
}

fn inline_spans(source: &str) -> Vec<Span> {
    match MdParagraph::parse_paragraph(source, 0) {
        Some(MdContent::Paragraph(p)) => p.spans,
        other => panic!("not a paragraph: {:?}", other),
    }
}

#[test]
fn markdown_inline_node_to_spans_then_split_newlines_simple() {
    assert_eq!(
        inline_spans("one\ntwo\nthree\n"),
        vec![span("one", 0), span("two", Modifier::NEW_LINE), span("three", Modifier::NEW_LINE)]
    );
}

#[test]
fn markdown_inline_node_to_spans_then_split_newlines() {
    assert_eq!(
        inline_spans("This *is* a test.\nAnother line."),
        vec![
            span("This ", 0),
            span("is", Modifier::EMPHASIS),
            span(" a test.", 0),
            span("Another line.", Modifier::NEW_LINE),
        ]
    );
}

#[test]
fn markdown_split_newlines_at_styled() {
    assert_eq!(
        inline_spans("This\n*is* a test."),
        vec![span("This", 0), span("is", Modifier::EMPHASIS | Modifier::NEW_LINE), span(" a test.", 0)]
    );
}

#[test]
fn markdown_split_newlines_middle() {
    assert_eq!(inline_spans("hello\nworld"), vec![span("hello", 0), span("world", Modifier::NEW_LINE)]);
}

#[test]
fn markdown_merges_punctuation() {
    assert_eq!(inline_spans("one, two."), vec![span("one, two.", 0)]);
}

#[test]
fn multiple_styled_sections() {
    assert_eq!(
        inline_spans("you can _put_ **Markdown** into"),
        vec![
            span("you can ", 0),
            span("put", Modifier::EMPHASIS),
            span(" ", 0),
            span("Markdown", Modifier::STRONG_EMPHASIS),
            span(" into", 0),
        ]
    );
}

#[test]
fn blockquote_styled_preserves_whitespace() {
    let sections = parse_sections("> you can _put_ **Markdown** into").unwrap();
    assert_eq!(sections.len(), 1);
    match &sections[0].content {
        MdContent::Paragraph(p) => {
            let content: String = p.spans.iter().map(|s| s.content.clone()).collect();
            assert_eq!(content, "you can put Markdown into");
            assert_eq!(
                p.spans,
                vec![
                    span("you can ", 0),
                    span("put", Modifier::EMPHASIS),
                    span(" ", 0),
                    span("Markdown", Modifier::STRONG_EMPHASIS),
                    span(" into", 0),
                ]
            );
        }
        other => panic!("not a paragraph: {:?}", other),
    }
}

#[test]
fn inline_code_and_link_spans() {
    let spans = inline_spans("a `b` [c](d)");
    let text: String = spans.iter().map(|s| s.content.clone()).collect();
    assert_eq!(text, "a b [c](d)");
    assert!(spans.iter().any(|s| s.content == "b" && s.modifiers.contains(Modifier::CODE)));
}
