use mdfrier::config::Theme;
use mdfrier::frier::MdFrier;
use mdfrier::lines::Line;
use mdfrier::model::{HeaderConfig, SectionEvent};
use mdfrier::section_groups::{group_sections, last_section_id, GroupContent, GroupedSection};

fn lines_of(width: u16, text: &str) -> Vec<Line> {
    let mut frier = MdFrier::new().unwrap();
    let theme = Theme::default();
    let mut it = frier.parse(width, text, &theme).unwrap();
    let mut v = Vec::new();
    while let Some(l) = it.next() {
        v.push(l);
    }
    v
}

fn parse_sections(text: &str) -> Vec<(GroupedSection, Vec<SectionEvent>)> {
    group_sections(&lines_of(80, text), 80, HeaderConfig::Image)
}

#[test]
fn header_is_own_section() {
    let sections = parse_sections("# Hello\n\nWorld");
    assert_eq!(sections.len(), 2);
    assert!(matches!(sections[0].0.content, GroupContent::Header(_, 1)));
    assert!(matches!(sections[1].0.content, GroupContent::Lines(_)));
    assert_eq!(sections[0].1, vec![SectionEvent::Header(0, "Hello".to_owned(), 1)]);
}

#[test]
fn consecutive_text_aggregated() {
    let sections = parse_sections("Line 1\nLine 2\nLine 3");
    assert_eq!(sections.len(), 1);
    assert!(matches!(sections[0].0.content, GroupContent::Lines(_)));
    assert_eq!(sections[0].0.height, 3);
}

#[test]
fn image_is_own_section() {
    let sections = parse_sections("Before\n\n![alt](http://example.com/img.png)\n\nAfter");
    assert_eq!(sections.len(), 3);
    assert!(matches!(sections[0].0.content, GroupContent::Lines(_)));
    assert!(matches!(sections[1].0.content, GroupContent::Lines(_)));
    assert!(matches!(sections[2].0.content, GroupContent::Lines(_)));
    assert_eq!(sections[1].0.height, 2);
    match &sections[1].1[0] {
        SectionEvent::Image(id, img) => {
            assert_eq!(*id, 1);
            assert_eq!(img.destination, "http://example.com/img.png");
            assert_eq!(img.description, "alt");
        }
        other => panic!("not an image: {other:?}"),
    }
}

#[test]
fn multiple_headers() {
    let sections = parse_sections("# One\n\n## Two\n\n### Three");
    assert_eq!(sections.len(), 3);
    assert!(matches!(sections[0].0.content, GroupContent::Header(_, 1)));
    assert!(matches!(sections[1].0.content, GroupContent::Header(_, 2)));
    assert!(matches!(sections[2].0.content, GroupContent::Header(_, 3)));
    assert_eq!(last_section_id(&sections), Some(2));
}

#[test]
fn header_wrapping_tier_1() {
    let sections = group_sections(&lines_of(10, "# 1234567890"), 10, HeaderConfig::TextSizeProtocol);
    assert_eq!(sections.len(), 2);
    match &sections[0].0.content {
        GroupContent::Header(text, tier) => {
            assert_eq!(*tier, 1);
            assert_eq!(text, "12345");
        }
        _ => panic!("expected Header"),
    }
    match &sections[1].0.content {
        GroupContent::Header(text, tier) => {
            assert_eq!(*tier, 1);
            assert_eq!(text, "67890");
        }
        _ => panic!("expected Header"),
    }
    assert_eq!((sections[0].0.id, sections[1].0.id), (0, 1));
}

#[test]
fn a_blank_line_is_kept_before_a_header() {
    let sections = parse_sections("Text\n\n# Next");
    assert_eq!(sections.len(), 2);
    match &sections[0].0.content {
        GroupContent::Lines(lines) => assert_eq!(lines.len(), 2),
        _ => panic!("expected lines"),
    }
    assert_eq!(last_section_id(&Vec::new()), None);
}
