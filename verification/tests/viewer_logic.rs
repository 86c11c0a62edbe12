use mdfrier::fontpicker::{font_picker_step, KeyMods, PickerAction, PickerKey};
use mdfrier::highlight::{line_highlights, marks_of_lines, Highlight};
use mdfrier::jobs::{image_cache_usable, image_line_for, place_image, section_height, section_jobs, serve_from_cache, ImagePlan, SectionJob, SectionKind};
use mdfrier::keys::{decide_key, Key};
use mdfrier::lines::{Line, LineKind};
use mdfrier::model::{Cursor, CursorPointer, InputQueue};
use mdfrier::modifier::Modifier;
use mdfrier::span::{SourceContent, Span};
use mdfrier::terminal_font::{terminals_to_try, TerminalKind};
use mdfrier::viewer::Mark;

fn fonts() -> Vec<(String, String)> {
    vec![
        ("fira code".to_owned(), "Fira Code".to_owned()),
        ("hack".to_owned(), "Hack".to_owned()),
        ("iosevka".to_owned(), "Iosevka".to_owned()),
    ]
}

#[test]
fn font_picker_keys() {
    let f = fonts();
    let mut input = "H".to_owned();
    assert_eq!(font_picker_step(&f, &mut input, PickerKey::Tab), PickerAction::Continue);
    assert_eq!(input, "Hack");
    assert_eq!(font_picker_step(&f, &mut input, PickerKey::Down), PickerAction::Continue);
    assert_eq!(input, "Iosevka");
    assert_eq!(font_picker_step(&f, &mut input, PickerKey::Up), PickerAction::Continue);
    assert_eq!(input, "Hack");
    assert_eq!(font_picker_step(&f, &mut input, PickerKey::Enter), PickerAction::Confirm("Hack".to_owned()));
    assert_eq!(font_picker_step(&f, &mut input, PickerKey::Backspace), PickerAction::Continue);
    assert_eq!(input, "Hac");
    assert_eq!(font_picker_step(&f, &mut input, PickerKey::Char('x', KeyMods::ShiftOnly)), PickerAction::Continue);
    assert_eq!(input, "HacX");
    assert_eq!(font_picker_step(&f, &mut input, PickerKey::Enter), PickerAction::Continue);
    assert_eq!(font_picker_step(&f, &mut input, PickerKey::Char('c', KeyMods::WithControl)), PickerAction::Abort);
    assert_eq!(font_picker_step(&f, &mut input, PickerKey::Esc), PickerAction::Abort);
    assert_eq!(input, "HacX");
}

#[test]
fn jobs_of_sections() {
    let sections = vec![
        (0, SectionKind::Lines(vec![("a".to_owned(), "http://a".to_owned())])),
        (1, SectionKind::Code("rust".to_owned())),
        (2, SectionKind::ImagePlaceholder("img.png".to_owned())),
        (3, SectionKind::HeaderPlaceholder("Title".to_owned(), 1)),
        (4, SectionKind::Header),
    ];
    assert_eq!(
        section_jobs(&sections, true),
        vec![
            SectionJob::ReferenceDefinition("a".to_owned(), "http://a".to_owned()),
            SectionJob::Code(1, "rust".to_owned()),
            SectionJob::Image(2, "img.png".to_owned()),
            SectionJob::Header(3, "Title".to_owned(), 1),
        ]
    );
    assert_eq!(section_jobs(&sections, false).len(), 3);
}

#[test]
fn image_cache_and_placement() {
    assert!(image_cache_usable(80, (80, 20), 30));
    assert!(!image_cache_usable(81, (80, 20), 30));
    assert!(!image_cache_usable(80, (80, 40), 30));
    let sections = vec![(1, Some("a.png".to_owned())), (2, None), (3, Some("b.png".to_owned()))];
    assert_eq!(place_image(&sections, &vec![], 2, "b.png", true), ImagePlan::ReuseSection(2));
    assert_eq!(place_image(&sections, &vec![], 2, "a.png", true), ImagePlan::Placeholder { push: true });
    assert_eq!(place_image(&sections, &vec!["a.png".to_owned()], 2, "a.png", false), ImagePlan::ReuseStored(0));
    assert_eq!(place_image(&sections, &vec![], 2, "c.png", false), ImagePlan::Placeholder { push: false });
}

fn link(content: &str, url: &str) -> Span {
    Span::link(content.to_owned(), Modifier::new(Modifier::LINK_DESCRIPTION), Some(SourceContent(url.to_owned())))
}

#[test]
fn marks_group_links_by_url_and_highlight() {
    let lines = vec![
        Line { spans: vec![Span::new("see ".to_owned(), Modifier::empty()), link("here", "http://x")], kind: LineKind::Paragraph },
        Line { spans: vec![link("x", "http://y"), link("again", "http://x")], kind: LineKind::Paragraph },
    ];
    let (marks, urls) = marks_of_lines(&lines, Some("again"));
    assert_eq!(urls, vec!["http://x".to_owned(), "http://y".to_owned()]);
    assert_eq!(marks[0].marks, Some(vec![Mark::Link(0, 4, 8)]));
    assert_eq!(marks[1].marks, Some(vec![Mark::Link(1, 0, 1), Mark::Link(0, 1, 6), Mark::SearchMatch(1, 6)]));
    let cursor = Cursor::Links(CursorPointer { id: 1, index: 1 });
    let m1 = marks[1].marks.clone().unwrap();
    assert_eq!(line_highlights(&m1, 1, 0, &cursor, Some(0)), vec![Highlight { start: 1, end: 6, current: true }]);
    let search = Cursor::Search("again".to_owned(), Some(CursorPointer { id: 1, index: 2 }));
    assert_eq!(line_highlights(&m1, 1, 0, &search, None), vec![Highlight { start: 1, end: 6, current: true }]);
    assert_eq!(line_highlights(&m1, 1, 0, &Cursor::Inactive, None), vec![]);
}

#[test]
fn terminals_from_environment() {
    assert_eq!(terminals_to_try(Some("ghostty"), Some("foot")), vec![TerminalKind::Ghostty, TerminalKind::Foot]);
    assert_eq!(terminals_to_try(Some("other"), Some("xterm-kitty")), vec![TerminalKind::Kitty]);
    assert_eq!(terminals_to_try(None, None), vec![]);
}

#[test]
fn movement_counts_are_never_zero() {
    let mut q = InputQueue::Empty;
    let mut c = Cursor::Inactive;
    decide_key(Key::Char('0'), false, &mut q, &mut c, 10, 100);
    assert_eq!(q, InputQueue::Empty);
    decide_key(Key::Char('3'), false, &mut q, &mut c, 10, 100);
    decide_key(Key::Char('0'), false, &mut q, &mut c, 10, 100);
    assert_eq!(q, InputQueue::MovementCount(30));
}

#[test]
fn loaded_image_goes_to_its_line() {
    let lines = vec![
        ("text".to_owned(), false),
        ("![a](x.png)".to_owned(), true),
        ("![b](x.png)".to_owned(), false),
    ];
    assert_eq!(image_line_for(&lines, "x.png"), Some(2));
    assert_eq!(image_line_for(&lines, "y.png"), None);
    assert_eq!(section_height(&vec![None, Some(5), None]), 7);
    assert_eq!(section_height(&vec![Some(u16::MAX), None]), u16::MAX);
}

#[test]
fn cache_serves_usable_images_and_headers_once() {
    let jobs = vec![
        SectionJob::Image(1, "a.png".to_owned()),
        SectionJob::Image(2, "a.png".to_owned()),
        SectionJob::Image(3, "b.png".to_owned()),
        SectionJob::Header(4, "T".to_owned(), 1),
        SectionJob::Header(5, "T".to_owned(), 2),
        SectionJob::ReferenceDefinition("r".to_owned(), "u".to_owned()),
        SectionJob::Code(6, "rust".to_owned()),
    ];
    let mut images = vec![("a.png".to_owned(), (80, 20)), ("b.png".to_owned(), (70, 20))];
    let mut headers = vec![("T".to_owned(), 1u8)];
    let served = serve_from_cache(&jobs, 80, 30, &mut images, &mut headers);
    assert_eq!(served, vec![true, false, false, true, false, true, false]);
    assert!(images.is_empty());
    assert!(headers.is_empty());
}
