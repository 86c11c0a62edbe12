use mdfrier::lines::{Line, LineKind};
use mdfrier::modifier::Modifier;
use mdfrier::search::{search_marks, search_text};
use mdfrier::span::Span;

fn line(parts: &[&str]) -> Line {
    Line { spans: parts.iter().map(|p| Span::new((*p).to_owned(), Modifier::empty())).collect(), kind: LineKind::Paragraph }
}

#[test]
fn document_add_search_offset() {
    let lines = vec![line(&["▐", " hi"])];
    let found = search_marks(&lines, Some("hi"));
    assert_eq!(found, vec![vec![(2, 4, "hi".to_owned())]]);
}

#[test]
fn widget_sources_add_search_offset() {
    let lines = vec![line(&["▐", " hi"])];
    assert_eq!(search_marks(&lines, Some("hi"))[0][0], (2, 4, "hi".to_owned()));
}

#[test]
fn search_ignores_case() {
    assert_eq!(
        search_text("Hello hello", Some("HELLO")),
        vec![(0, 5, "Hello".to_owned()), (6, 11, "hello".to_owned())]
    );
}

#[test]
fn search_takes_the_needle_literally() {
    assert_eq!(search_text("a.b axb", Some(".")), vec![(1, 2, ".".to_owned())]);
}

#[test]
fn search_counts_display_columns() {
    assert_eq!(search_text("日本 abc", Some("ABC")), vec![(5, 8, "abc".to_owned())]);
}

#[test]
fn search_without_needle_finds_nothing() {
    assert_eq!(search_text("abc", None), vec![]);
    let lines = vec![line(&["abc"]), line(&["xyz abc"])];
    let found = search_marks(&lines, Some("abc"));
    assert_eq!(found, vec![vec![(0, 3, "abc".to_owned())], vec![(4, 7, "abc".to_owned())]]);
}
