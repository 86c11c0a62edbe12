use mdfrier::link_tracker::{LinkTracker, TrackedUrl};
use mdfrier::modifier::Modifier;
use mdfrier::span::Span;

fn m(bits: u32) -> Modifier {
    Modifier::new(bits)
}

fn span(content: &str, bits: u32) -> Span {
    Span::new(content.to_owned(), m(bits))
}

fn link_spans(description: &str, url: &str) -> Vec<Span> {
    vec![
        span("[", Modifier::LINK | Modifier::LINK_DESCRIPTION_WRAPPER),
        span(description, Modifier::LINK | Modifier::LINK_DESCRIPTION),
        span("]", Modifier::LINK | Modifier::LINK_DESCRIPTION_WRAPPER),
        span("(", Modifier::LINK | Modifier::LINK_URL_WRAPPER),
        span(url, Modifier::LINK | Modifier::LINK_URL),
        span(")", Modifier::LINK | Modifier::LINK_URL_WRAPPER),
    ]
}

#[test]
fn link_tracker_track_link() {
    let mut tracker = LinkTracker::new();
    for s in link_spans("desc", "url") {
        tracker.track(&s);
    }
    let extras = tracker.take_urls();
    assert_eq!(extras[0], TrackedUrl::link("url".to_owned(), 1, 5, 0));
}

#[test]
fn link_tracker_track_nested_image() {
    let mut tracker = LinkTracker::new();
    let mut spans = link_spans("desc", "url");
    spans.splice(
        1..2,
        [
            span("![", Modifier::LINK | Modifier::LINK_DESCRIPTION | Modifier::IMAGE),
            span("image", Modifier::LINK | Modifier::LINK_DESCRIPTION | Modifier::IMAGE),
            span("](", Modifier::LINK | Modifier::LINK_DESCRIPTION | Modifier::IMAGE),
            span("image_url", Modifier::LINK_DESCRIPTION | Modifier::IMAGE | Modifier::LINK_URL),
            span(")", Modifier::LINK | Modifier::LINK_DESCRIPTION | Modifier::IMAGE),
        ],
    );
    for s in spans {
        tracker.track(&s);
    }
    let extras = tracker.take_urls();
    assert_eq!(
        extras,
        vec![
            TrackedUrl::image("image".to_owned(), "image_url".to_owned()),
            TrackedUrl::link("url".to_owned(), 1, 20, 0),
        ]
    )
}

#[test]
fn link_tracker_track_wrapped_link() {
    let mut tracker = LinkTracker::new();
    tracker.track(&span("[", Modifier::LINK | Modifier::LINK_DESCRIPTION_WRAPPER));
    tracker.track(&span("desc", Modifier::LINK | Modifier::LINK_DESCRIPTION));
    tracker.carriage_return(None);
    tracker.track(&span("cont", Modifier::LINK | Modifier::LINK_DESCRIPTION));
    tracker.track(&span("]", Modifier::LINK | Modifier::LINK_DESCRIPTION_WRAPPER));
    tracker.track(&span("(", Modifier::LINK | Modifier::LINK_URL_WRAPPER));
    tracker.carriage_return(None);
    tracker.track(&span("url", Modifier::LINK | Modifier::LINK_URL));
    tracker.track(&span(")", Modifier::LINK | Modifier::LINK_URL_WRAPPER));
    let extras = tracker.take_urls();
    assert_eq!(extras[0], TrackedUrl::link("url".to_owned(), 1, 4, 1));
}

#[test]
fn link_tracker_track_multiple_wraps_link() {
    let mut tracker = LinkTracker::new();
    tracker.track(&span("nothing ", 0));
    tracker.track(&span("[", Modifier::LINK | Modifier::LINK_DESCRIPTION_WRAPPER));
    tracker.track(&span("desc1", Modifier::LINK | Modifier::LINK_DESCRIPTION));
    tracker.carriage_return(None);
    tracker.track(&span("desc2", Modifier::LINK | Modifier::LINK_DESCRIPTION));
    tracker.carriage_return(None);
    tracker.track(&span("desc3", Modifier::LINK | Modifier::LINK_DESCRIPTION));
    tracker.track(&span("]", Modifier::LINK | Modifier::LINK_DESCRIPTION_WRAPPER));
    tracker.track(&span("(", Modifier::LINK | Modifier::LINK_URL_WRAPPER));
    tracker.carriage_return(None);
    tracker.track(&span("url-1/", Modifier::LINK | Modifier::LINK_URL));
    tracker.carriage_return(None);
    tracker.track(&span("url-2", Modifier::LINK | Modifier::LINK_URL));
    tracker.carriage_return(None);
    tracker.track(&span(")", Modifier::LINK | Modifier::LINK_URL_WRAPPER));
    let extras = tracker.take_urls();
    assert_eq!(extras[0], TrackedUrl::link("url-1/url-2".to_owned(), 9, 5, 2));
}

#[test]
fn track_bare_link() {
    let mut tracker = LinkTracker::new();
    tracker.track(&span("http://bare", Modifier::BARE_LINK | Modifier::LINK_URL));
    tracker.carriage_return(None);
    let extras = tracker.take_urls();
    assert_eq!(extras[0], TrackedUrl::link("http://bare".to_owned(), 0, 11, 0));
}

#[test]
fn track_bare_link_eol() {
    let mut tracker = LinkTracker::new();
    tracker.track(&span("see ", 0));
    tracker.track(&span("http://bare", Modifier::BARE_LINK | Modifier::LINK_URL));
    tracker.carriage_return(Some(Modifier::empty()));
    let extras = tracker.take_urls();
    assert_eq!(extras[0], TrackedUrl::link("http://bare".to_owned(), 4, 15, 0));
}

#[test]
fn track_bare_link_wrapped() {
    let mut tracker = LinkTracker::new();
    tracker.track(&span("https://ex.com/", Modifier::BARE_LINK | Modifier::LINK_URL));
    tracker.carriage_return(Some(m(Modifier::BARE_LINK | Modifier::LINK_URL)));
    tracker.track(&span("rest", Modifier::BARE_LINK | Modifier::LINK_URL));
    tracker.carriage_return(None);
    let extras = tracker.take_urls();
    assert_eq!(extras[0], TrackedUrl::link("https://ex.com/rest".to_owned(), 0, 4, 1));
}

#[test]
fn take_urls_empties_the_tracker() {
    let mut tracker = LinkTracker::new();
    for s in link_spans("d", "u") {
        tracker.track(&s);
    }
    assert_eq!(tracker.take_urls().len(), 1);
    assert!(tracker.take_urls().is_empty());
}

#[test]
fn mid_link_reports_description_start() {
    let mut tracker = LinkTracker::new();
    tracker.track(&span("ab ", 0));
    tracker.track(&span("[", Modifier::LINK | Modifier::LINK_DESCRIPTION_WRAPPER));
    assert_eq!(tracker.is_mid_link(), None);
    tracker.track(&span("desc", Modifier::LINK | Modifier::LINK_DESCRIPTION));
    assert_eq!(tracker.is_mid_link(), Some(8));
    assert_eq!(tracker.carriage_return(None), Some(8));
}
