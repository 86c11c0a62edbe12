//! What a key press does to the viewer: the pending input and the cursor change, and the
//! viewer is asked to scroll, move the cursor, search, open a link, reload or quit.
use vstd::prelude::*;

use crate::text::{chars_of, string_of_range};
use crate::model::{Cursor, CursorPointer, CursorView, InputQueue, QueueView, queue_wf};

verus! {

/// A key, as far as the viewer tells keys apart.
#[derive(Debug, Clone, Copy, PartialEq, Eq, Structural)]
pub enum Key {
    Char(char),
    Down,
    Up,
    PageDown,
    PageUp,
    Enter,
    Esc,
    Backspace,
    F(u8),
    Other,
}

/// What the viewer has to do after a key press, besides the new input queue and cursor.
#[derive(Debug, PartialEq, Eq)]
pub enum KeyEffect {
    /// The key is not bound to anything.
    Unbound,
    /// The key was taken; nothing more to do.
    Handled,
    Quit,
    /// Scroll by this many lines (down when positive).
    ScrollBy(i32),
    /// Scroll to this line.
    ScrollTo(u16),
    /// Move the cursor this many links or matches forward.
    CursorNext(u16),
    /// Move the cursor this many links or matches back.
    CursorPrev(u16),
    Reload,
    ToggleLogSnapshot,
    /// Search the document for this text.
    Search(String),
    /// Open the link that the cursor points at.
    OpenLink(CursorPointer),
}

/// The mathematical value of a [`KeyEffect`].
pub enum KeyEffectView {
    Unbound,
    Handled,
    Quit,
    ScrollBy(i32),
    ScrollTo(u16),
    CursorNext(u16),
    CursorPrev(u16),
    Reload,
    ToggleLogSnapshot,
    Search(Seq<char>),
    OpenLink(CursorPointer),
}

impl View for KeyEffect {
    type V = KeyEffectView;

    open spec fn view(&self) -> KeyEffectView {
        match self {
            KeyEffect::Unbound => KeyEffectView::Unbound,
            KeyEffect::Handled => KeyEffectView::Handled,
            KeyEffect::Quit => KeyEffectView::Quit,
            KeyEffect::ScrollBy(n) => KeyEffectView::ScrollBy(*n),
            KeyEffect::ScrollTo(n) => KeyEffectView::ScrollTo(*n),
            KeyEffect::CursorNext(n) => KeyEffectView::CursorNext(*n),
            KeyEffect::CursorPrev(n) => KeyEffectView::CursorPrev(*n),
            KeyEffect::Reload => KeyEffectView::Reload,
            KeyEffect::ToggleLogSnapshot => KeyEffectView::ToggleLogSnapshot,
            KeyEffect::Search(s) => KeyEffectView::Search(s@),
            KeyEffect::OpenLink(p) => KeyEffectView::OpenLink(*p),
        }
    }
}

/// `n` held within the range of `i32`.
pub open spec fn clamp_i32(n: int) -> i32 {
    if n < i32::MIN { i32::MIN } else if n > i32::MAX { i32::MAX } else { n as i32 }
}

/// A movement count extended by a digit: the decimal number grows, up to the largest `u16`.
pub open spec fn extended_count(count: u16, digit: int) -> u16 {
    if count * 10 + digit > u16::MAX { u16::MAX } else { (count * 10 + digit) as u16 }
}

/// Half a page (rounded toward zero) for a document area `inner_height` lines high.
pub open spec fn half_page(inner_height: u16) -> int {
    if inner_height == 0 { 0 } else { (inner_height - 1) / 2 }
}

/// The count taken from the queue (one without a count), and the queue after.
pub open spec fn count_or_unit(q: QueueView) -> (int, QueueView) {
    match q {
        QueueView::MovementCount(n) => (n as int, QueueView::Empty),
        _ => (1, q),
    }
}

/// Whether `c` is an ASCII digit.
pub open spec fn is_digit(c: char) -> bool {
    '0' <= c <= '9'
}

/// What a key press does: the effect, the input queue after and the cursor after, for a
/// document area `inner_height` lines high and a document `total_lines` lines long.
///
/// While a search is typed, every character goes to it. Digits make a movement count (a
/// first `0` does not). `q` and Ctrl-C quit; `j`/`k`/arrows scroll by lines, `d`/`u` by half
/// pages, `f`/space/PageDown and `b`/PageUp by pages, each times the count; `g` and `G` go
/// to the line of the count, or to the top and the bottom; `n` and `N` move the cursor by
/// the count; `r` reloads; `/` starts a search; F11 toggles the log snapshot; Enter ends a
/// search at its first match or opens the link under the cursor; Esc aborts what is typed
/// or clears the cursor; Backspace edits what is typed.
pub open spec fn key_step(key: Key, ctrl: bool, q: QueueView, c: CursorView, inner_height: u16, total_lines: u16) -> (KeyEffectView, QueueView, CursorView) {
    let page = inner_height - 2;
    match key {
        Key::Char(ch) => {
            if q is Search {
                let needle = q->Search_0.push(ch);
                (KeyEffectView::Search(needle), QueueView::Search(needle), CursorView::Search(needle, None))
            } else if is_digit(ch) && (!(q is Empty) || ch != '0') {
                let d = ch as int - '0' as int;
                match q {
                    QueueView::MovementCount(n) => (KeyEffectView::Handled, QueueView::MovementCount(extended_count(n, d)), c),
                    _ => (KeyEffectView::Handled, QueueView::MovementCount(d as u16), c),
                }
            } else if ch == 'q' || (ch == 'c' && ctrl) {
                (KeyEffectView::Quit, q, c)
            } else if ch == 'j' {
                (KeyEffectView::ScrollBy(clamp_i32(count_or_unit(q).0)), count_or_unit(q).1, c)
            } else if ch == 'k' {
                (KeyEffectView::ScrollBy(clamp_i32(-count_or_unit(q).0)), count_or_unit(q).1, c)
            } else if ch == 'd' {
                (KeyEffectView::ScrollBy(clamp_i32(half_page(inner_height) * count_or_unit(q).0)), count_or_unit(q).1, c)
            } else if ch == 'u' {
                (KeyEffectView::ScrollBy(clamp_i32(-half_page(inner_height) * count_or_unit(q).0)), count_or_unit(q).1, c)
            } else if ch == 'f' || ch == ' ' {
                (KeyEffectView::ScrollBy(clamp_i32(page * count_or_unit(q).0)), count_or_unit(q).1, c)
            } else if ch == 'b' {
                (KeyEffectView::ScrollBy(clamp_i32(-page * count_or_unit(q).0)), count_or_unit(q).1, c)
            } else if ch == 'g' {
                match q {
                    QueueView::MovementCount(n) => (KeyEffectView::ScrollTo(n), QueueView::Empty, c),
                    _ => (KeyEffectView::ScrollTo(0), q, c),
                }
            } else if ch == 'G' {
                match q {
                    QueueView::MovementCount(n) => (KeyEffectView::ScrollTo(n), QueueView::Empty, c),
                    _ => {
                        let up: int = if inner_height == 0 { u16::MAX as int } else { inner_height - 1 };
                        (KeyEffectView::ScrollTo(if total_lines <= up { 0 } else { (total_lines - up) as u16 }), q, c)
                    },
                }
            } else if ch == 'n' {
                (KeyEffectView::CursorNext(count_or_unit(q).0 as u16), count_or_unit(q).1, c)
            } else if ch == 'N' {
                (KeyEffectView::CursorPrev(count_or_unit(q).0 as u16), count_or_unit(q).1, c)
            } else if ch == 'r' {
                (KeyEffectView::Reload, q, c)
            } else if ch == '/' {
                (KeyEffectView::Handled, QueueView::Search(Seq::empty()), CursorView::Search(Seq::empty(), None))
            } else {
                (KeyEffectView::Unbound, q, c)
            }
        },
        Key::Down => (KeyEffectView::ScrollBy(clamp_i32(count_or_unit(q).0)), count_or_unit(q).1, c),
        Key::Up => (KeyEffectView::ScrollBy(clamp_i32(-count_or_unit(q).0)), count_or_unit(q).1, c),
        Key::PageDown => (KeyEffectView::ScrollBy(clamp_i32(page * count_or_unit(q).0)), count_or_unit(q).1, c),
        Key::PageUp => (KeyEffectView::ScrollBy(clamp_i32(-page * count_or_unit(q).0)), count_or_unit(q).1, c),
        Key::F(n) => if n == 11 { (KeyEffectView::ToggleLogSnapshot, q, c) } else { (KeyEffectView::Unbound, q, c) },
        Key::Enter => match q {
            QueueView::Search(_) => (KeyEffectView::CursorNext(1), QueueView::Empty, c),
            _ => match c {
                CursorView::Links(p) => (KeyEffectView::OpenLink(p), q, c),
                _ => (KeyEffectView::Handled, q, c),
            },
        },
        Key::Esc => match q {
            QueueView::Empty => match c {
                CursorView::Inactive => (KeyEffectView::Handled, q, c),
                _ => (KeyEffectView::Handled, q, CursorView::Inactive),
            },
            QueueView::MovementCount(_) => (KeyEffectView::Handled, QueueView::Empty, c),
            QueueView::Search(_) => (KeyEffectView::Handled, QueueView::Empty, CursorView::Inactive),
        },
        Key::Backspace => match q {
            QueueView::Empty => (KeyEffectView::Handled, q, c),
            QueueView::MovementCount(n) => (KeyEffectView::Handled, QueueView::MovementCount(if n > 10 { (n / 10) as u16 } else { n }), c),
            QueueView::Search(needle) => if needle.len() == 0 {
                (KeyEffectView::Handled, QueueView::Empty, CursorView::Inactive)
            } else {
                (KeyEffectView::Search(needle.drop_last()), QueueView::Search(needle.drop_last()), c)
            },
        },
        Key::Other => (KeyEffectView::Unbound, q, c),
    }
}

/// `a * b` held within the range of `i32`.
fn saturating_product(a: i32, b: i32) -> (r: i32)
    requires
        -70000 <= a <= 70000,
        -70000 <= b <= 70000,
    ensures
        r == clamp_i32(a * b),
{
    assert(-4_900_000_000 <= a * b <= 4_900_000_000) by (nonlinear_arith)
        requires
            -70000 <= a <= 70000,
            -70000 <= b <= 70000,
    ;
    let p: i64 = (a as i64) * (b as i64);
    if p < i32::MIN as i64 {
        i32::MIN
    } else if p > i32::MAX as i64 {
        i32::MAX
    } else {
        p as i32
    }
}

/// The count taken from the queue, one without a count (see [`count_or_unit`]).
fn take_count_or_unit(q: &mut InputQueue) -> (n: i32)
    ensures
        (n as int, final(q)@) == count_or_unit(old(q)@),
        1 <= n <= u16::MAX || (old(q)@ matches QueueView::MovementCount(c) && c == 0 && n == 0),
{
    q.take_count_or_unit_i32()
}

/// Apply a key press to the input queue and the cursor (see [`key_step`]), and say what the
/// viewer has to do next.
pub fn decide_key(key: Key, ctrl: bool, queue: &mut InputQueue, cursor: &mut Cursor, inner_height: u16, total_lines: u16) -> (e: KeyEffect)
    requires
        queue_wf(old(queue)@),
        !(key == Key::Char('G') && old(queue)@ is Empty && inner_height == 1),
    ensures
        (e@, final(queue)@, final(cursor)@) == key_step(key, ctrl, old(queue)@, old(cursor)@, inner_height, total_lines),
        queue_wf(final(queue)@),
{
    let page: i32 = inner_height as i32 - 2;
    let half: i32 = if inner_height == 0 { 0 } else { ((inner_height - 1) / 2) as i32 };
    let searching = match queue {
        InputQueue::Search(_) => true,
        _ => false,
    };
    match key {
        Key::Char(ch) => {
            if searching {
                let mut needle = match queue {
                    InputQueue::Search(s) => s.clone(),
                    _ => String::new(),
                };
                needle.push(ch);
                *queue = InputQueue::Search(needle.clone());
                *cursor = Cursor::Search(needle.clone(), None);
                KeyEffect::Search(needle)
            } else if '0' <= ch && ch <= '9' && (!(match queue { InputQueue::Empty => true, _ => false }) || ch != '0') {
                let d: u32 = (ch as u32) - ('0' as u32);
                match queue {
                    InputQueue::MovementCount(n) => {
                        let v: u32 = (*n as u32) * 10 + d;
                        *n = if v > u16::MAX as u32 { u16::MAX } else { v as u16 };
                    },
                    _ => {
                        *queue = InputQueue::MovementCount(d as u16);
                    },
                }
                KeyEffect::Handled
            } else if ch == 'q' || (ch == 'c' && ctrl) {
                KeyEffect::Quit
            } else if ch == 'j' {
                let n = take_count_or_unit(queue);
                KeyEffect::ScrollBy(n)
            } else if ch == 'k' {
                let n = take_count_or_unit(queue);
                KeyEffect::ScrollBy(-n)
            } else if ch == 'd' {
                let n = take_count_or_unit(queue);
                KeyEffect::ScrollBy(saturating_product(half, n))
            } else if ch == 'u' {
                let n = take_count_or_unit(queue);
                KeyEffect::ScrollBy(saturating_product(-half, n))
            } else if ch == 'f' || ch == ' ' {
                let n = take_count_or_unit(queue);
                KeyEffect::ScrollBy(saturating_product(page, n))
            } else if ch == 'b' {
                let n = take_count_or_unit(queue);
                KeyEffect::ScrollBy(saturating_product(-page, n))
            } else if ch == 'g' || ch == 'G' {
                match queue {
                    InputQueue::MovementCount(n) => {
                        let to = *n;
                        *queue = InputQueue::Empty;
                        KeyEffect::ScrollTo(to)
                    },
                    _ => if ch == 'g' {
                        KeyEffect::ScrollTo(0)
                    } else {
                        let up: u16 = if inner_height == 0 { u16::MAX } else { inner_height - 1 };
                        KeyEffect::ScrollTo(total_lines.saturating_sub(up))
                    },
                }
            } else if ch == 'n' {
                let n = take_count_or_unit(queue);
                KeyEffect::CursorNext(n as u16)
            } else if ch == 'N' {
                let n = take_count_or_unit(queue);
                KeyEffect::CursorPrev(n as u16)
            } else if ch == 'r' {
                KeyEffect::Reload
            } else if ch == '/' {
                *queue = InputQueue::Search(String::new());
                *cursor = Cursor::Search(String::new(), None);
                KeyEffect::Handled
            } else {
                KeyEffect::Unbound
            }
        },
        Key::Down => {
            let n = take_count_or_unit(queue);
            KeyEffect::ScrollBy(n)
        },
        Key::Up => {
            let n = take_count_or_unit(queue);
            KeyEffect::ScrollBy(-n)
        },
        Key::PageDown => {
            let n = take_count_or_unit(queue);
            KeyEffect::ScrollBy(saturating_product(page, n))
        },
        Key::PageUp => {
            let n = take_count_or_unit(queue);
            KeyEffect::ScrollBy(saturating_product(-page, n))
        },
        Key::F(n) => if n == 11 { KeyEffect::ToggleLogSnapshot } else { KeyEffect::Unbound },
        Key::Enter => {
            if searching {
                *queue = InputQueue::Empty;
                KeyEffect::CursorNext(1)
            } else {
                match cursor {
                    Cursor::Links(p) => KeyEffect::OpenLink(*p),
                    _ => KeyEffect::Handled,
                }
            }
        },
        Key::Esc => {
            match queue {
                InputQueue::Empty => {
                    match cursor {
                        Cursor::Inactive => {},
                        _ => {
                            *cursor = Cursor::Inactive;
                        },
                    }
                },
                InputQueue::MovementCount(_) => {
                    *queue = InputQueue::Empty;
                },
                InputQueue::Search(_) => {
                    *queue = InputQueue::Empty;
                    *cursor = Cursor::Inactive;
                },
            }
            KeyEffect::Handled
        },
        Key::Backspace => {
            match queue {
                InputQueue::Empty => KeyEffect::Handled,
                InputQueue::MovementCount(n) => {
                    if *n > 10 {
                        *n = *n / 10;
                    }
                    KeyEffect::Handled
                },
                InputQueue::Search(needle) => {
                    if needle.as_str().is_empty() {
                        *queue = InputQueue::Empty;
                        *cursor = Cursor::Inactive;
                        KeyEffect::Handled
                    } else {
                        let v = chars_of(needle.as_str());
                        let s = string_of_range(&v, 0, v.len() - 1);
                        proof { assert(v@.subrange(0, v@.len() - 1) =~= v@.drop_last()); }
                        *queue = InputQueue::Search(s.clone());
                        KeyEffect::Search(s)
                    }
                },
            }
        },
        Key::Other => KeyEffect::Unbound,
    }
}

/// The line the view starts at after scrolling by `lines` from `scroll`: within `0..=u16::MAX`,
/// and never past one line after the last full screen of a document `total_lines` long in an
/// area `inner_height` lines high.
pub open spec fn scroll_position(scroll: u16, lines: i32, total_lines: u16, inner_height: u16) -> u16 {
    let to = scroll + lines;
    let moved: int = if to < 0 { 0 } else if to > u16::MAX { u16::MAX as int } else { to };
    let limit: int = (if total_lines <= inner_height { 0 } else { total_lines - inner_height }) + 1;
    (if moved <= limit { moved } else { limit }) as u16
}

/// Scroll by `lines` from `scroll` (see [`scroll_position`]).
pub fn scrolled(scroll: u16, lines: i32, total_lines: u16, inner_height: u16) -> (r: u16)
    requires
        total_lines.saturating_sub(inner_height) < u16::MAX,
    ensures
        r == scroll_position(scroll, lines, total_lines, inner_height),
{
    let to: i64 = scroll as i64 + lines as i64;
    let moved: u16 = if to < 0 { 0 } else if to > u16::MAX as i64 { u16::MAX } else { to as u16 };
    let limit: u16 = total_lines.saturating_sub(inner_height) + 1;
    if moved <= limit { moved } else { limit }
}

/// Scrolling never leaves the document: the view starts at most one line after the last full
/// screen, and scrolling by zero lines from such a position stays there.
pub proof fn scrolling_stays_in_the_document(scroll: u16, lines: i32, total_lines: u16, inner_height: u16)
    ensures
        scroll_position(scroll, lines, total_lines, inner_height) as int
            <= (if total_lines <= inner_height { 0 } else { total_lines - inner_height }) + 1,
        ({
            let p = scroll_position(scroll, lines, total_lines, inner_height);
            scroll_position(p, 0, total_lines, inner_height) == p
        }),
{
}

/// In a search, Backspace takes back the character just typed; Esc always leaves no pending
/// input.
pub proof fn editing_laws(s: Seq<char>, ch: char, key: Key, ctrl: bool, q: QueueView, c: CursorView, h: u16, t: u16)
    ensures
        ({
            let (_, q1, c1) = key_step(Key::Char(ch), ctrl, QueueView::Search(s), c, h, t);
            key_step(Key::Backspace, ctrl, q1, c1, h, t).1 == QueueView::Search(s)
        }),
        key_step(Key::Esc, ctrl, q, c, h, t).1 is Empty,
{
    let (_, q1, c1) = key_step(Key::Char(ch), ctrl, QueueView::Search(s), c, h, t);
    assert(s.push(ch).drop_last() =~= s);
}

} // verus!

verus! {

/// The arrow keys scroll like `j` and `k`: Down scrolls forward and Up back by the movement
/// count (one line without a count), so that Up undoes Down; out of a search, each does
/// exactly what its letter does.
pub proof fn arrows_scroll_like_j_and_k(ctrl: bool, q: QueueView, c: CursorView, inner_height: u16, total_lines: u16)
    requires
        queue_wf(q),
    ensures
        ({
            let n: int = match q {
                QueueView::MovementCount(k) => k as int,
                _ => 1,
            };
            &&& key_step(Key::Down, ctrl, q, c, inner_height, total_lines).0 == KeyEffectView::ScrollBy(n as i32)
            &&& key_step(Key::Up, ctrl, q, c, inner_height, total_lines).0 == KeyEffectView::ScrollBy((-n) as i32)
            &&& n >= 1
        }),
        !(q is Search) ==> key_step(Key::Up, ctrl, q, c, inner_height, total_lines)
            == key_step(Key::Char('k'), ctrl, q, c, inner_height, total_lines),
        !(q is Search) ==> key_step(Key::Down, ctrl, q, c, inner_height, total_lines)
            == key_step(Key::Char('j'), ctrl, q, c, inner_height, total_lines),
{
}

} // verus!

verus! {

/// Out of a search, the scrolling and moving keys act by the movement count (one without
/// a count), which they use up: `j` forward and `k` back by lines, `d` forward and `u` back
/// by the same half page, `f`, space and PageDown alike forward, `b` and PageUp alike back,
/// `g` and `G` with a count go to that line and `g` without one to the top, `n` and `N`
/// move the cursor forward and back by the count; `q` quits and leaves everything as it was.
pub proof fn motion_keys_follow_the_count(ctrl: bool, q: QueueView, c: CursorView, inner_height: u16, total_lines: u16)
    requires
        queue_wf(q),
        !(q is Search),
    ensures
        ({
            let n: int = match q {
                QueueView::MovementCount(k) => k as int,
                _ => 1,
            };
            let after = if q is MovementCount { QueueView::Empty } else { q };
            let half = half_page(inner_height);
            &&& key_step(Key::Char('j'), ctrl, q, c, inner_height, total_lines) == (KeyEffectView::ScrollBy(n as i32), after, c)
            &&& key_step(Key::Char('k'), ctrl, q, c, inner_height, total_lines) == (KeyEffectView::ScrollBy((-n) as i32), after, c)
            &&& key_step(Key::Char('d'), ctrl, q, c, inner_height, total_lines) == (KeyEffectView::ScrollBy((half * n) as i32), after, c)
            &&& key_step(Key::Char('u'), ctrl, q, c, inner_height, total_lines) == (KeyEffectView::ScrollBy((-(half * n)) as i32), after, c)
            &&& key_step(Key::Char('n'), ctrl, q, c, inner_height, total_lines) == (KeyEffectView::CursorNext(n as u16), after, c)
            &&& key_step(Key::Char('N'), ctrl, q, c, inner_height, total_lines) == (KeyEffectView::CursorPrev(n as u16), after, c)
            &&& key_step(Key::Char('q'), ctrl, q, c, inner_height, total_lines) == (KeyEffectView::Quit, q, c)
            &&& key_step(Key::PageDown, ctrl, q, c, inner_height, total_lines) == key_step(Key::Char('f'), ctrl, q, c, inner_height, total_lines)
            &&& key_step(Key::Char(' '), ctrl, q, c, inner_height, total_lines) == key_step(Key::Char('f'), ctrl, q, c, inner_height, total_lines)
            &&& key_step(Key::PageUp, ctrl, q, c, inner_height, total_lines) == key_step(Key::Char('b'), ctrl, q, c, inner_height, total_lines)
            &&& (q matches QueueView::MovementCount(k) ==> {
                &&& key_step(Key::Char('g'), ctrl, q, c, inner_height, total_lines) == (KeyEffectView::ScrollTo(k), QueueView::Empty, c)
                &&& key_step(Key::Char('G'), ctrl, q, c, inner_height, total_lines) == (KeyEffectView::ScrollTo(k), QueueView::Empty, c)
            })
            &&& (q is Empty ==> key_step(Key::Char('g'), ctrl, q, c, inner_height, total_lines) == (KeyEffectView::ScrollTo(0), q, c))
        }),
{
    let n: int = match q {
        QueueView::MovementCount(k) => k as int,
        _ => 1,
    };
    let half = half_page(inner_height);
    assert(0 <= half <= 32767);
    assert(0 <= half * n <= 32767 * 65535) by (nonlinear_arith)
        requires
            0 <= half <= 32767,
            1 <= n <= 65535,
    ;
    assert((-half) * n == -(half * n)) by (nonlinear_arith);
    let after = if q is MovementCount { QueueView::Empty } else { q };
    assert(key_step(Key::Char('j'), ctrl, q, c, inner_height, total_lines) == (KeyEffectView::ScrollBy(n as i32), after, c));
    assert(key_step(Key::Char('k'), ctrl, q, c, inner_height, total_lines) == (KeyEffectView::ScrollBy((-n) as i32), after, c));
    assert(key_step(Key::Char('d'), ctrl, q, c, inner_height, total_lines) == (KeyEffectView::ScrollBy((half * n) as i32), after, c));
    assert(key_step(Key::Char('u'), ctrl, q, c, inner_height, total_lines) == (KeyEffectView::ScrollBy((-(half * n)) as i32), after, c));
    assert(key_step(Key::Char('n'), ctrl, q, c, inner_height, total_lines) == (KeyEffectView::CursorNext(n as u16), after, c));
    assert(key_step(Key::Char('q'), ctrl, q, c, inner_height, total_lines) == (KeyEffectView::Quit, q, c));
    assert(key_step(Key::PageDown, ctrl, q, c, inner_height, total_lines) == key_step(Key::Char('f'), ctrl, q, c, inner_height, total_lines));
}

/// Typing into a search: each character is added to the searched text, which the cursor
/// then searches, and Backspace takes the last one back.
pub proof fn search_typing_is_undone_by_backspace(ch: char, ctrl: bool, needle: Seq<char>, c: CursorView, inner_height: u16, total_lines: u16)
    ensures
        ({
            let (e, q1, c1) = key_step(Key::Char(ch), ctrl, QueueView::Search(needle), c, inner_height, total_lines);
            &&& e == KeyEffectView::Search(needle.push(ch))
            &&& q1 == QueueView::Search(needle.push(ch))
            &&& c1 == CursorView::Search(needle.push(ch), None)
            &&& key_step(Key::Backspace, ctrl, q1, c1, inner_height, total_lines).1 == QueueView::Search(needle)
        }),
{
    assert(needle.push(ch).drop_last() =~= needle);
}

} // verus!
