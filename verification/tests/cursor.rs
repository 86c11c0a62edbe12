use mdfrier::keys::scrolled;
use mdfrier::model::{Cursor, CursorPointer, FindMode};
use mdfrier::viewer::{cursor_find, jump_to_line, url_at_pointer, Document, Mark, Section, SectionMarks};

/// The parts of the viewer that moving the cursor touches: the document, the marks of its
/// sections, the cursor and the scroll position, in an area 20 lines high.
struct Viewer {
    document: Document<()>,
    marks: Vec<SectionMarks>,
    cursor: Cursor,
    scroll: u16,
}

const INNER_HEIGHT: u16 = 20;

impl Viewer {
    fn new() -> Viewer {
        Viewer { document: Document::new(), marks: Vec::new(), cursor: Cursor::Inactive, scroll: 0 }
    }

    fn push(&mut self, id: usize, marks: Vec<Mark>) {
        self.document.push(Section { id, height: 1, content: () });
        self.marks.push(SectionMarks { id, height: 1, marks: Some(marks) });
    }

    fn jump_to_pointer(&mut self) {
        if let Some(p) = self.cursor.pointer() {
            let y = self.document.get_y(p.id);
            let lines = jump_to_line(y, self.scroll, INNER_HEIGHT);
            self.scroll = scrolled(self.scroll, lines, self.document.total_lines(), INNER_HEIGHT);
        }
    }

    fn find(&mut self, count: u16, mode: FindMode) {
        cursor_find(&self.marks, &mut self.cursor, count, mode, self.scroll);
        self.jump_to_pointer();
    }

    fn cursor_next(&mut self, count: u16) {
        self.find(count, FindMode::Next);
    }

    fn cursor_prev(&mut self, count: u16) {
        self.find(count, FindMode::Prev);
    }

    fn cursor_url(&self) -> usize {
        let p = self.cursor.pointer().expect("a cursor");
        url_at_pointer(&self.marks, p).expect("a link under the cursor")
    }
}

fn two_sections_three_links() -> Viewer {
    let mut v = Viewer::new();
    v.push(1, vec![Mark::Link(0, 0, 1), Mark::Link(1, 0, 1)]);
    v.push(2, vec![Mark::Link(2, 0, 1)]);
    v
}

#[test]
fn finds_link_per_line() {
    let mut v = two_sections_three_links();
    v.cursor_next(1);
    assert_eq!(v.cursor_url(), 0);
    v.cursor_next(1);
    assert_eq!(v.cursor_url(), 1);
    v.cursor_next(1);
    assert_eq!(v.cursor_url(), 2);
}

#[test]
fn finds_link_with_scroll() {
    let mut v = Viewer::new();
    for i in 1..5 {
        v.push(i, vec![Mark::Link(i, 0, 1)]);
    }
    v.scroll = 2;
    v.cursor_next(1);
    assert_eq!(v.cursor_url(), 3);
}

#[test]
fn finds_link_with_scroll_wrapping() {
    let mut v = Viewer::new();
    v.push(1, vec![Mark::Link(7, 0, 1)]);
    for i in 2..5 {
        v.push(i, vec![]);
    }
    v.scroll = 2;
    v.cursor_next(1);
    assert_eq!(v.cursor_url(), 7);
}

#[test]
fn finds_multiple_links_per_line_next() {
    let mut v = two_sections_three_links();
    v.cursor_next(1);
    assert_eq!(v.cursor_url(), 0);
    v.cursor_next(1);
    assert_eq!(v.cursor_url(), 1);
    v.cursor_next(1);
    assert_eq!(v.cursor_url(), 2);
}

#[test]
fn finds_multiple_links_per_line_prev() {
    let mut v = two_sections_three_links();
    v.cursor_prev(1);
    assert_eq!(v.cursor_url(), 0);
    v.cursor_prev(1);
    assert_eq!(v.cursor_url(), 2);
    v.cursor_prev(1);
    assert_eq!(v.cursor_url(), 1);
}

fn lines(n: usize) -> Viewer {
    let mut v = Viewer::new();
    for i in 0..n {
        v.push(i, vec![]);
    }
    v
}

#[test]
fn jump_to_pointer() {
    let mut v = lines(31);
    v.cursor = Cursor::Search(String::new(), Some(CursorPointer { id: 19, index: 0 }));
    v.jump_to_pointer();
    assert_eq!(v.scroll, 1);
    v.scroll = 0;
    v.cursor = Cursor::Search(String::new(), Some(CursorPointer { id: 30, index: 0 }));
    v.jump_to_pointer();
    assert_eq!(v.scroll, 12);
}

#[test]
fn jump_back_to_pointer() {
    let mut v = lines(31);
    v.scroll = 12;
    v.cursor = Cursor::Search(String::new(), Some(CursorPointer { id: 0, index: 0 }));
    v.jump_to_pointer();
    assert_eq!(v.scroll, 0);
}

#[test]
fn scrolls_into_view() {
    let mut v = lines(30);
    v.push(30, vec![Mark::Link(5, 0, 1)]);
    v.cursor_next(1);
    assert_eq!(v.cursor_url(), 5);
    assert_eq!(v.scroll, 12);
    assert_eq!((v.scroll, v.scroll + INNER_HEIGHT - 2), (12, 30));
}

#[test]
fn finds_links_with_count() {
    let mut v = Viewer::new();
    for i in 1..10 {
        v.push(i, vec![Mark::Link(i - 1, 0, 1)]);
    }
    v.cursor_next(3);
    assert_eq!(v.cursor_url(), 2);
    v.cursor_prev(2);
    assert_eq!(v.cursor_url(), 0);
    v.cursor_prev(1);
    assert_eq!(v.cursor_url(), 8);
    v.cursor_next(4);
    assert_eq!(v.cursor_url(), 3);
}

#[test]
fn parts_of_one_link_are_skipped() {
    let mut v = Viewer::new();
    v.push(1, vec![Mark::Link(1, 0, 1)]);
    v.push(2, vec![Mark::Link(1, 0, 1)]);
    v.push(3, vec![Mark::Link(2, 0, 1)]);
    v.cursor_next(1);
    assert_eq!(v.cursor.pointer(), Some(&CursorPointer { id: 1, index: 0 }));
    v.cursor_next(1);
    assert_eq!(v.cursor.pointer(), Some(&CursorPointer { id: 3, index: 0 }));
}

#[test]
fn search_moves_between_matches() {
    let mut v = Viewer::new();
    v.push(1, vec![Mark::SearchMatch(0, 1), Mark::Link(1, 0, 1)]);
    v.push(2, vec![Mark::SearchMatch(2, 3)]);
    v.cursor = Cursor::Search("x".to_owned(), None);
    v.cursor_next(1);
    assert_eq!(v.cursor.pointer(), Some(&CursorPointer { id: 1, index: 0 }));
    v.cursor_next(1);
    assert_eq!(v.cursor.pointer(), Some(&CursorPointer { id: 2, index: 0 }));
}

#[test]
fn document_update_replaces_by_id_and_trim_cuts() {
    let mut d: Document<u8> = Document::new();
    d.push(Section { id: 1, height: 1, content: 10 });
    d.push(Section { id: 2, height: 2, content: 20 });
    d.push(Section { id: 3, height: 1, content: 30 });
    d.update(vec![Section { id: 2, height: 5, content: 21 }, Section { id: 2, height: 1, content: 22 }]);
    let contents: Vec<u8> = d.sections().iter().map(|s| s.content).collect();
    assert_eq!(contents, vec![10, 21, 22, 30]);
    assert_eq!(d.get_y(3), 7);
    assert_eq!(d.total_lines(), 8);
    d.update(vec![Section { id: 9, height: 1, content: 90 }]);
    assert_eq!(d.sections().len(), 5);
    d.update(vec![Section { id: 0, height: 1, content: 0 }]);
    assert_eq!(d.sections().len(), 5);
    d.trim(Some(2));
    let ids: Vec<usize> = d.sections().iter().map(|s| s.id).collect();
    assert_eq!(ids, vec![1, 2]);
}
