use mdfrier::big_text::{unicode_chunks, BigText};
use mdfrier::markdown::{is_blockquote_marker_only, strip_blockquote_prefix};
use mdfrier::osc8::{modifier_to_attributes, span_to_ansi, TextAttribute};
use mdfrier::pipeline::{span_from_mdspan, MdModifier, MdNode};
use mdfrier::style::{Style, StyledSpan, TermColor, TextModifier};

#[test]
fn big_text_ratio_and_sequence() {
    assert_eq!(BigText::size_ratio(1), (7, 7));
    assert_eq!(BigText::size_ratio(2), (5, 6));
    assert_eq!(BigText::size_ratio(9), (1, 3));
    let seq = BigText::new("ab", 2).text_sizing_sequence(10);
    let clear = "\u{1b}[10X\u{1b}[?7l";
    let expected = format!("{clear}\u{1b}[1B{clear}\u{1b}[1A\u{1b}]66;s=2:n=5:d=6:w=2;ab\u{1b}\\");
    assert_eq!(seq, expected);
}

#[test]
fn chunks_of_text() {
    let chunks = unicode_chunks(&"abcd".chars().collect(), 3);
    let texts: Vec<(String, u8)> = chunks.iter().map(|(c, w)| (c.iter().collect(), *w)).collect();
    assert_eq!(texts, vec![("abc".to_owned(), 3), ("d".to_owned(), 1)]);
    let wide = unicode_chunks(&"a日本".chars().collect(), 3);
    let texts: Vec<(String, u8)> = wide.iter().map(|(c, w)| (c.iter().collect(), *w)).collect();
    assert_eq!(texts, vec![("a".to_owned(), 1), ("日".to_owned(), 2), ("本".to_owned(), 2)]);
}

#[test]
fn blockquote_markers() {
    assert_eq!(strip_blockquote_prefix("> > a", 2), "a");
    assert_eq!(strip_blockquote_prefix(">> a", 1), "> a");
    assert_eq!(strip_blockquote_prefix("> a", 0), "> a");
    assert!(is_blockquote_marker_only("> >"));
    assert!(!is_blockquote_marker_only(">"));
    assert!(!is_blockquote_marker_only("> a"));
    assert!(!is_blockquote_marker_only(""));
}

#[test]
fn attributes_of_modifiers() {
    assert_eq!(modifier_to_attributes(TextModifier::BOLD | TextModifier::UNDERLINED), vec![TextAttribute::Bold, TextAttribute::Underlined]);
    assert_eq!(modifier_to_attributes(0), vec![]);
}

#[test]
fn spans_as_escape_sequences() {
    assert_eq!(span_to_ansi(&StyledSpan::raw("x".to_owned())).unwrap(), "x\u{1b}[0m");
    let bold = StyledSpan::styled("x".to_owned(), Style::new().add_modifier(TextModifier::BOLD));
    assert_eq!(span_to_ansi(&bold).unwrap(), "\u{1b}[1mx\u{1b}[0m");
    let red = StyledSpan::styled("x".to_owned(), Style::new().fg(TermColor::Indexed(9)));
    let s = span_to_ansi(&red).unwrap();
    assert!(s == "\u{1b}[38;5;9mx\u{1b}[0m" || s == "\u{1b}[mx\u{1b}[0m", "{s:?}");
}

#[test]
fn viewer_node_styles() {
    let s = span_from_mdspan(MdNode::new("x".to_owned(), MdModifier { bits: MdModifier::EMPHASIS }));
    assert_eq!(s.content, "x");
    assert_eq!(s.style.fg, Some(TermColor::Indexed(220)));
    assert_eq!(s.style.add_modifier & TextModifier::ITALIC, TextModifier::ITALIC);
    let code = span_from_mdspan(MdNode::new("c".to_owned(), MdModifier { bits: MdModifier::CODE }));
    assert_eq!((code.style.fg, code.style.bg), (Some(TermColor::Indexed(203)), Some(TermColor::Indexed(236))));
}

#[test]
fn style_patching() {
    let a = Style::new().fg(TermColor::Red).add_modifier(TextModifier::BOLD);
    let b = Style::new().bg(TermColor::Blue).underlined();
    let p = a.patch(b);
    assert_eq!(p.fg, Some(TermColor::Red));
    assert_eq!(p.bg, Some(TermColor::Blue));
    assert_eq!(p.add_modifier, TextModifier::BOLD | TextModifier::UNDERLINED);
    assert_eq!(a.patch(Style::new()), a);
    assert_eq!(Style::new().patch(a), a);
}
