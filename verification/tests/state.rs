use mdfrier::config::PaddingConfig;
use mdfrier::events::{decide_event, decide_events, reset_cursor_after_reparse, DocEvent, EventAction};
use mdfrier::keys::{decide_key, scrolled, Key, KeyEffect};
use mdfrier::model::{post_incr_section_id, post_incr_source_id, usize_string, BuiltIn, Cursor, CursorPointer, DocumentId, InputQueue, LogTarget};

fn press(key: Key, queue: &mut InputQueue, cursor: &mut Cursor) -> KeyEffect {
    decide_key(key, false, queue, cursor, 20, 100)
}

#[test]
fn digits_make_a_count_that_moves_use() {
    let mut q = InputQueue::Empty;
    let mut c = Cursor::Inactive;
    assert_eq!(press(Key::Char('1'), &mut q, &mut c), KeyEffect::Handled);
    assert_eq!(press(Key::Char('2'), &mut q, &mut c), KeyEffect::Handled);
    assert_eq!(q, InputQueue::MovementCount(12));
    assert_eq!(press(Key::Char('j'), &mut q, &mut c), KeyEffect::ScrollBy(12));
    assert_eq!(q, InputQueue::Empty);
    assert_eq!(press(Key::Char('k'), &mut q, &mut c), KeyEffect::ScrollBy(-1));
    assert_eq!(press(Key::Char('0'), &mut q, &mut c), KeyEffect::Unbound);
}

#[test]
fn counts_saturate_and_backspace_shortens_them() {
    let mut q = InputQueue::MovementCount(9999);
    let mut c = Cursor::Inactive;
    press(Key::Char('9'), &mut q, &mut c);
    assert_eq!(q, InputQueue::MovementCount(u16::MAX));
    press(Key::Backspace, &mut q, &mut c);
    assert_eq!(q, InputQueue::MovementCount(6553));
    let mut q = InputQueue::MovementCount(7);
    press(Key::Backspace, &mut q, &mut c);
    assert_eq!(q, InputQueue::MovementCount(7));
}

#[test]
fn pages_and_jumps() {
    let mut q = InputQueue::Empty;
    let mut c = Cursor::Inactive;
    assert_eq!(press(Key::Char('d'), &mut q, &mut c), KeyEffect::ScrollBy(9));
    assert_eq!(press(Key::Char('u'), &mut q, &mut c), KeyEffect::ScrollBy(-9));
    assert_eq!(press(Key::Char(' '), &mut q, &mut c), KeyEffect::ScrollBy(18));
    assert_eq!(press(Key::PageUp, &mut q, &mut c), KeyEffect::ScrollBy(-18));
    assert_eq!(press(Key::Char('g'), &mut q, &mut c), KeyEffect::ScrollTo(0));
    assert_eq!(press(Key::Char('G'), &mut q, &mut c), KeyEffect::ScrollTo(81));
    let mut q = InputQueue::MovementCount(5);
    assert_eq!(press(Key::Char('G'), &mut q, &mut c), KeyEffect::ScrollTo(5));
    assert_eq!(q, InputQueue::Empty);
    let mut q = InputQueue::MovementCount(40000);
    assert_eq!(press(Key::PageDown, &mut q, &mut c), KeyEffect::ScrollBy(720_000));
    let mut q = InputQueue::MovementCount(u16::MAX);
    assert_eq!(decide_key(Key::Char('f'), false, &mut q, &mut c, 60000, 0), KeyEffect::ScrollBy(i32::MAX));
}

#[test]
fn quitting_and_other_keys() {
    let mut q = InputQueue::Empty;
    let mut c = Cursor::Inactive;
    assert_eq!(press(Key::Char('q'), &mut q, &mut c), KeyEffect::Quit);
    assert_eq!(decide_key(Key::Char('c'), true, &mut q, &mut c, 20, 100), KeyEffect::Quit);
    assert_eq!(press(Key::Char('c'), &mut q, &mut c), KeyEffect::Unbound);
    assert_eq!(press(Key::F(11), &mut q, &mut c), KeyEffect::ToggleLogSnapshot);
    assert_eq!(press(Key::F(1), &mut q, &mut c), KeyEffect::Unbound);
    assert_eq!(press(Key::Other, &mut q, &mut c), KeyEffect::Unbound);
    assert_eq!(press(Key::Char('r'), &mut q, &mut c), KeyEffect::Reload);
    assert_eq!(press(Key::Char('n'), &mut q, &mut c), KeyEffect::CursorNext(1));
    assert_eq!(press(Key::Char('N'), &mut q, &mut c), KeyEffect::CursorPrev(1));
}

#[test]
fn typing_a_search() {
    let mut q = InputQueue::Empty;
    let mut c = Cursor::Inactive;
    assert_eq!(press(Key::Char('/'), &mut q, &mut c), KeyEffect::Handled);
    assert_eq!(press(Key::Char('a'), &mut q, &mut c), KeyEffect::Search("a".to_owned()));
    assert_eq!(press(Key::Char('q'), &mut q, &mut c), KeyEffect::Search("aq".to_owned()));
    assert_eq!(c, Cursor::Search("aq".to_owned(), None));
    assert_eq!(press(Key::Backspace, &mut q, &mut c), KeyEffect::Search("a".to_owned()));
    assert_eq!(press(Key::Enter, &mut q, &mut c), KeyEffect::CursorNext(1));
    assert_eq!(q, InputQueue::Empty);
    assert_eq!(press(Key::Esc, &mut q, &mut c), KeyEffect::Handled);
    assert_eq!(c, Cursor::Inactive);
    press(Key::Char('/'), &mut q, &mut c);
    assert_eq!(press(Key::Backspace, &mut q, &mut c), KeyEffect::Handled);
    assert_eq!((q, c), (InputQueue::Empty, Cursor::Inactive));
}

#[test]
fn enter_opens_the_link_under_the_cursor() {
    let p = CursorPointer { id: 3, index: 1 };
    let mut q = InputQueue::Empty;
    let mut c = Cursor::Links(p);
    assert_eq!(press(Key::Enter, &mut q, &mut c), KeyEffect::OpenLink(p));
}

#[test]
fn scrolling_is_kept_in_the_document() {
    assert_eq!(scrolled(0, 5, 100, 20), 5);
    assert_eq!(scrolled(3, -10, 100, 20), 0);
    assert_eq!(scrolled(70, 50, 100, 20), 81);
    assert_eq!(scrolled(0, 3, 10, 20), 1);
}

#[test]
fn events_of_other_documents_are_stale() {
    let mut shown = DocumentId { id: 1, reload_id: 0 };
    let other = DocumentId { id: 2, reload_id: 0 };
    assert_eq!(decide_event(&mut shown, DocEvent::Parsed(other), true), (EventAction::Stale, false));
    let same = shown;
    assert_eq!(decide_event(&mut shown, DocEvent::Parsed(same), true), (EventAction::PlaceSection { push: true }, false));
    assert_eq!(decide_event(&mut shown, DocEvent::ParseDone(same, Some(4)), true), (EventAction::EndParse(Some(4)), true));
    let reloaded = shown.reload();
    assert_eq!(decide_event(&mut shown, DocEvent::NewDocument(reloaded), true), (EventAction::SwitchDocument(reloaded), false));
    assert_eq!(shown, reloaded);
    assert_eq!(
        decide_event(&mut shown, DocEvent::ParseHeader(reloaded), false),
        (EventAction::PlaceHeader { push: false, render: false }, false)
    );
    assert_eq!(decide_event(&mut shown, DocEvent::FileChanged, true), (EventAction::Reload, false));
}

#[test]
fn a_run_of_events() {
    let mut shown = DocumentId { id: 0, reload_id: 0 };
    let first = shown;
    let next = shown.open();
    let (actions, done) = decide_events(
        &mut shown,
        &vec![DocEvent::NewDocument(next), DocEvent::ParsedImage(next), DocEvent::Update(first), DocEvent::ParseDone(next, None)],
        true,
    );
    assert_eq!(
        actions,
        vec![EventAction::SwitchDocument(next), EventAction::PlaceImage { push: true }, EventAction::Stale, EventAction::EndParse(None)]
    );
    assert!(done);
    assert_eq!(shown, next);
}

#[test]
fn cursor_after_a_new_parse() {
    let mut c = Cursor::Search("x".to_owned(), Some(CursorPointer { id: 1, index: 0 }));
    assert_eq!(reset_cursor_after_reparse(&mut c), Some("x".to_owned()));
    assert_eq!(c, Cursor::Search("x".to_owned(), None));
    let mut c = Cursor::Links(CursorPointer { id: 1, index: 0 });
    assert_eq!(reset_cursor_after_reparse(&mut c), None);
    assert_eq!(c, Cursor::Inactive);
}

#[test]
fn document_ids() {
    let d = DocumentId::default();
    assert!(d.is_first_load());
    let r = d.reload();
    assert!(r.is_same_document(&d));
    assert!(!r.is_first_load());
    assert_eq!(r.label(), "D0.1");
    assert_eq!(r.open().label(), "D1.0");
    assert!(!r.open().is_same_document(&d));
}

#[test]
fn counters_and_numbers() {
    let mut id = None;
    assert_eq!(post_incr_section_id(&mut id), 0);
    assert_eq!(post_incr_section_id(&mut id), 1);
    assert_eq!(id, Some(1));
    let mut sid = Some(41);
    assert_eq!(post_incr_source_id(&mut sid), 42);
    assert_eq!(usize_string(0), "0");
    assert_eq!(usize_string(1230), "1230");
}

#[test]
fn queue_counts() {
    let mut q = InputQueue::MovementCount(3);
    assert_eq!(q.take_count(), Some(3));
    assert_eq!(q.take_count(), None);
    let mut q = InputQueue::Search("s".to_owned());
    assert_eq!(q.take_count_or_unit_u16(), 1);
    assert_eq!(q, InputQueue::Search("s".to_owned()));
    let mut q = InputQueue::MovementCount(4);
    assert_eq!(q.take_count_or_unit_i32(), 4);
}

#[test]
fn log_targets_and_builtins() {
    assert_eq!(LogTarget::from_arg(None), LogTarget::Off);
    assert_eq!(LogTarget::from_arg(Some(&String::new())), LogTarget::Stderr);
    assert_eq!(LogTarget::from_arg(Some(&"log.txt".to_owned())), LogTarget::Path("log.txt".to_owned()));
    assert_eq!(BuiltIn::relative_target("./help_configuration.md"), Some(BuiltIn::HelpConfiguration));
    assert_eq!(BuiltIn::relative_target("./other.md"), None);
}

#[test]
fn padding() {
    assert_eq!(PaddingConfig::Full.calculate_width(120), 120);
    assert_eq!(PaddingConfig::Centered(100).calculate_width(120), 100);
    assert_eq!(PaddingConfig::default().calculate_width(80), 80);
    assert_eq!(PaddingConfig::Centered(10).calculate_height(33), 33);
}

#[test]
fn block_padding_centers_the_document() {
    assert_eq!(PaddingConfig::Full.block_padding(120), 0);
    assert_eq!(PaddingConfig::Centered(100).block_padding(120), 10);
    assert_eq!(PaddingConfig::Centered(100).block_padding(121), 10);
    assert_eq!(PaddingConfig::Centered(100).block_padding(80), 0);
}
