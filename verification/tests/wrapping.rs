use mdfrier::modifier::Modifier;
use mdfrier::span::Span;
use mdfrier::wrap::wrap_md_spans_lines;

fn text(s: &str) -> Span {
    Span::from_string(s.to_owned())
}

fn with(s: &str, bits: u32) -> Span {
    Span::new(s.to_owned(), Modifier::new(bits))
}

#[test]
fn wrap_simple_wrap() {
    let lines = wrap_md_spans_lines(4, vec![text("one two")], false);
    assert_eq!(lines, vec![vec![text("one")], vec![text("two")]]);
}

#[test]
fn wrap_no_wrap() {
    let lines = wrap_md_spans_lines(10, vec![text("one two")], false);
    assert_eq!(lines, vec![vec![text("one two")]]);
}

#[test]
fn wrap_word_break() {
    let lines = wrap_md_spans_lines(2, vec![text("one two")], false);
    assert_eq!(
        lines,
        vec![vec![text("on")], vec![text("e")], vec![text("tw")], vec![text("o")]]
    );
}

#[test]
fn link_wrapping() {
    let spans = vec![
        with("[", Modifier::LINK_DESCRIPTION_WRAPPER),
        with("link", Modifier::LINK_DESCRIPTION),
        with("]", Modifier::LINK_DESCRIPTION_WRAPPER),
        with("(", Modifier::LINK_URL_WRAPPER),
        with("https://example.com", Modifier::LINK_URL),
        with(")", Modifier::LINK_URL_WRAPPER),
    ];
    let lines = wrap_md_spans_lines(25, spans, false);
    let joined: Vec<String> = lines
        .iter()
        .map(|spans| spans.iter().map(|s| s.content.clone()).collect::<Vec<String>>().join(""))
        .collect();
    assert_eq!(joined, vec!["[link]".to_owned(), "(https://example.com)".to_owned()]);
}

#[test]
fn wrap_trailing_word_break() {
    let lines = wrap_md_spans_lines(4, vec![text("one twoo")], false);
    assert_eq!(lines, vec![vec![text("one")], vec![text("twoo")]]);
}

#[test]
fn wrap_multiline_break() {
    let lines = wrap_md_spans_lines(2, vec![text("onetwo")], false);
    assert_eq!(lines, vec![vec![text("on")], vec![text("et")], vec![text("wo")]]);
}

#[test]
fn wrap_newline() {
    let lines = wrap_md_spans_lines(10, vec![text("one "), with("two", Modifier::NEW_LINE)], false);
    assert_eq!(lines, vec![vec![text("one")], vec![with("two", Modifier::NEW_LINE)]]);
}

#[test]
fn new_line_span_trims_both_sides() {
    let lines = wrap_md_spans_lines(10, vec![text("one "), with(" two", Modifier::NEW_LINE)], false);
    assert_eq!(lines, vec![vec![text("one")], vec![with("two", Modifier::NEW_LINE)]]);
}

#[test]
fn url_moves_to_its_own_line_with_its_parenthesis() {
    let spans = vec![
        text("See "),
        with("(", Modifier::LINK_URL_WRAPPER),
        with("https://a.b/c", Modifier::LINK_URL),
        with(")", Modifier::LINK_URL_WRAPPER),
    ];
    let lines = wrap_md_spans_lines(12, spans, false);
    assert_eq!(lines[0], vec![text("See ")]);
    assert_eq!(lines[1][0], with("(", Modifier::LINK_URL_WRAPPER));
}

#[test]
fn hidden_urls_take_no_columns() {
    let spans = vec![
        with("[", Modifier::LINK | Modifier::LINK_DESCRIPTION_WRAPPER),
        with("ab", Modifier::LINK | Modifier::LINK_DESCRIPTION),
        with("]", Modifier::LINK | Modifier::LINK_DESCRIPTION_WRAPPER),
        with("(", Modifier::LINK | Modifier::LINK_URL_WRAPPER),
        with("https://example.com", Modifier::LINK | Modifier::LINK_URL),
        with(")", Modifier::LINK | Modifier::LINK_URL_WRAPPER),
    ];
    let lines = wrap_md_spans_lines(4, spans, true);
    assert_eq!(lines.len(), 1);
    assert_eq!(lines[0].len(), 6);
}

#[test]
fn unbreakable_words_fit_the_width() {
    let words = ["alpha", "be", "gamma", "d", "epsilon", "zeta", "eta"];
    let spans: Vec<Span> = words.iter().map(|w| text(w)).collect();
    let lines = wrap_md_spans_lines(7, spans, false);
    assert!(lines.len() > 1);
    for line in &lines {
        let cols: usize = line.iter().map(|s| s.content.chars().count()).sum();
        assert!(cols <= 7, "{:?}", line);
    }
}
