use mdfrier::link::{Chunk, Link, LinkCell, pairs_and_chunks};
use mdfrier::osc8::{Osc8Link, render_osc8_link};
use mdfrier::style::{Style, StyledSpan, TermColor, TextModifier};

fn green(text: &str) -> StyledSpan {
    StyledSpan::styled(text.to_owned(), Style::new().fg(TermColor::Green))
}

fn red_bold(text: &str) -> StyledSpan {
    StyledSpan::styled(
        text.to_owned(),
        Style::new().fg(TermColor::Red).add_modifier(TextModifier::BOLD),
    )
}

#[test]
fn basic_link() {
    assert_eq!(
        "\x1b]8;;http://example.com\x1b\\plain\u{1b}[0m\x1b]8;;\x1b\\",
        render_osc8_link(&vec![StyledSpan::raw("plain".to_owned())], "http://example.com")
            .unwrap()
            .0,
    );
}

#[test]
fn styled_link() {
    assert_eq!(
        "\x1b]8;;http://example.com\x1b\\\u{1b}[38;5;2mhello \u{1b}[0m\u{1b}[38;5;1m\u{1b}[1mworld\u{1b}[0m\x1b]8;;\x1b\\",
        render_osc8_link(&vec![green("hello "), red_bold("world")], "http://example.com")
            .unwrap()
            .0,
    );
}

#[test]
fn render_into_buffer() {
    let link = Osc8Link::new(vec![green("hello "), red_bold("world")], "http://example.com".to_owned());
    let (sequence, width) = link.sequence().unwrap();
    assert_eq!(width, 11);
    assert_eq!(
        sequence,
        "\x1b]8;;http://example.com\x1b\\\u{1b}[38;5;2mhello \u{1b}[0m\u{1b}[38;5;1m\u{1b}[1mworld\u{1b}[0m\x1b]8;;\x1b\\"
    );
}

#[test]
fn link_buffer_out() {
    let link = Link::new("link", "http://example.com");
    let cells = link.cells();
    assert_eq!(
        cells,
        vec![
            LinkCell::Symbol(0, "\x1b]8;;http://example.com\x1b\\li".to_owned()),
            LinkCell::Skip(1),
            LinkCell::Symbol(2, "nk\x1b]8;;\x1b\\".to_owned()),
            LinkCell::Skip(3),
        ]
    );
}

#[test]
fn chunks() {
    assert_eq!(vec![Chunk::First('a', 'b')], pairs_and_chunks("ab"));
    assert_eq!(vec![Chunk::First('a', 'b'), Chunk::Last(2, 'c', 'd')], pairs_and_chunks("abcd"));
    assert_eq!(
        vec![Chunk::First('a', 'b'), Chunk::MiddleSquezed(2, 'c'), Chunk::Last(3, 'd', 'e')],
        pairs_and_chunks("abcde")
    );
    assert_eq!(
        vec![Chunk::First('a', 'b'), Chunk::Middle(2, 'c', 'd'), Chunk::Last(4, 'e', 'f')],
        pairs_and_chunks("abcdef")
    );
    assert_eq!(
        vec![
            Chunk::First('a', 'b'),
            Chunk::Middle(2, 'c', 'd'),
            Chunk::MiddleSquezed(4, 'e'),
            Chunk::Last(5, 'f', 'g')
        ],
        pairs_and_chunks("abcdefg")
    );
    assert_eq!(
        vec![
            Chunk::First('a', 'b'),
            Chunk::Middle(2, 'c', 'd'),
            Chunk::Middle(4, 'e', 'f'),
            Chunk::Last(6, 'g', 'h')
        ],
        pairs_and_chunks("abcdefgh")
    );
}

#[test]
fn link_4() {
    let link = Link::new("link", "http://example.com");
    assert_eq!(
        link.cells(),
        vec![
            LinkCell::Symbol(0, "\x1b]8;;http://example.com\x1b\\li".to_owned()),
            LinkCell::Skip(1),
            LinkCell::Symbol(2, "nk\x1b]8;;\x1b\\".to_owned()),
            LinkCell::Skip(3),
        ]
    );
}

#[test]
fn link_5() {
    let link = Link::new("linky", "http://example.com");
    assert_eq!(
        link.cells(),
        vec![
            LinkCell::Symbol(0, "\x1b]8;;http://example.com\x1b\\li".to_owned()),
            LinkCell::Skip(1),
            LinkCell::Symbol(2, "n".to_owned()),
            LinkCell::Symbol(3, "ky\x1b]8;;\x1b\\".to_owned()),
            LinkCell::Skip(4),
        ]
    );
}

#[test]
fn link_too_short_has_no_cells() {
    assert_eq!(Link::new("a", "http://x").cells(), vec![]);
    assert_eq!(Link::new("", "http://x").cells(), vec![]);
}

#[test]
fn osc8_link_drops_empty_spans() {
    let link = Osc8Link::new(
        vec![StyledSpan::raw(String::new()), StyledSpan::raw("x".to_owned())],
        "u".to_owned(),
    );
    assert_eq!(link.spans.len(), 1);
    let (s, w) = link.sequence().unwrap();
    assert_eq!(w, 1);
    assert_eq!(s, "\x1b]8;;u\x1b\\x\u{1b}[0m\x1b]8;;\x1b\\");
}
