//! State of the viewer that is plain data: the cursor, the pending keyboard input, document
//! identities, counters of sections and sources, and the kinds of events and requests.
use vstd::prelude::*;

use crate::lines::{decimal, decimal_string};

verus! {

/// Points to a line extra by section id and extra index.
#[derive(Debug, Clone, Copy, PartialEq, Eq, Structural)]
pub struct CursorPointer {
    /// The section (line or lines).
    pub id: usize,
    /// The index of the matched line extra.
    pub index: usize,
}

/// The cursor: on links, on search matches (with the searched text), or nowhere.
#[derive(Debug, PartialEq, Eq)]
pub enum Cursor {
    Inactive,
    Links(CursorPointer),
    Search(String, Option<CursorPointer>),
}

impl Default for Cursor {
    fn default() -> (c: Cursor)
        ensures
            c is Inactive,
    {
        Cursor::Inactive
    }
}

impl Cursor {
    /// Where the cursor points, if anywhere.
    pub fn pointer(&self) -> (r: Option<&CursorPointer>)
        ensures
            r == match self {
                Cursor::Inactive => None,
                Cursor::Links(p) => Some(p),
                Cursor::Search(_, p) => match p {
                    Some(q) => Some(q),
                    None => None,
                },
            },
    {
        match self {
            Cursor::Inactive => None,
            Cursor::Links(pointer) => Some(pointer),
            Cursor::Search(_, pointer) => match pointer {
                Some(p) => Some(p),
                None => None,
            },
        }
    }
}

/// The mathematical value of a [`Cursor`].
pub enum CursorView {
    Inactive,
    Links(CursorPointer),
    Search(Seq<char>, Option<CursorPointer>),
}

impl View for Cursor {
    type V = CursorView;

    open spec fn view(&self) -> CursorView {
        match self {
            Cursor::Inactive => CursorView::Inactive,
            Cursor::Links(p) => CursorView::Links(*p),
            Cursor::Search(s, p) => CursorView::Search(s@, *p),
        }
    }
}

/// Keyboard input waiting for the operation it prefixes: a movement count, or a search.
#[derive(Debug, PartialEq, Eq)]
pub enum InputQueue {
    Empty,
    MovementCount(u16),
    Search(String),
}

/// The mathematical value of an [`InputQueue`].
pub enum QueueView {
    Empty,
    MovementCount(u16),
    Search(Seq<char>),
}

impl View for InputQueue {
    type V = QueueView;

    open spec fn view(&self) -> QueueView {
        match self {
            InputQueue::Empty => QueueView::Empty,
            InputQueue::MovementCount(n) => QueueView::MovementCount(*n),
            InputQueue::Search(s) => QueueView::Search(s@),
        }
    }
}

/// A queue is well formed when a movement count in it is not zero (a count is never started
/// with a `0`).
pub open spec fn queue_wf(q: QueueView) -> bool {
    q matches QueueView::MovementCount(n) ==> n >= 1
}

/// Taking the movement count from a queue: the count, if there is one, and the queue after:
/// empty once a count is taken, unchanged otherwise.
pub open spec fn count_taken(q: InputQueue) -> (Option<u16>, InputQueue) {
    match q {
        InputQueue::MovementCount(n) => (Some(n), InputQueue::Empty),
        _ => (None, q),
    }
}

impl InputQueue {
    /// Take the movement count, if there is one; the queue is then empty.
    pub fn take_count(&mut self) -> (r: Option<u16>)
        ensures
            (r, *final(self)) == count_taken(*old(self)),
    {
        match self {
            InputQueue::MovementCount(count) => {
                let c = *count;
                *self = InputQueue::Empty;
                Some(c)
            },
            _ => None,
        }
    }

    /// The movement count, one without a count; a count is consumed.
    pub fn take_count_or_unit_u16(&mut self) -> (n: u16)
        ensures
            match *old(self) {
                InputQueue::MovementCount(c) => n == c && *final(self) is Empty,
                _ => n == 1 && *final(self) == *old(self),
            },
    {
        match self.take_count() {
            Some(c) => c,
            None => 1,
        }
    }

    /// The movement count as a signed number, one without a count; a count is consumed.
    pub fn take_count_or_unit_i32(&mut self) -> (n: i32)
        ensures
            match *old(self) {
                InputQueue::MovementCount(c) => n == c && *final(self) is Empty,
                _ => n == 1 && *final(self) == *old(self),
            },
    {
        self.take_count_or_unit_u16() as i32
    }
}

/// The identity of a document: which one it is, and how many times it was reloaded.
#[derive(Debug, Default, Clone, Copy, PartialEq, Eq, Structural)]
pub struct DocumentId {
    pub id: usize,
    pub reload_id: usize,
}

/// The identity of the document opened after `d`: a new id, first load.
pub open spec fn opened(d: DocumentId) -> DocumentId {
    DocumentId { id: (d.id + 1) as usize, reload_id: 0 }
}

/// The identity of `d` reloaded: the same id, one more reload.
pub open spec fn reloaded(d: DocumentId) -> DocumentId {
    DocumentId { id: d.id, reload_id: (d.reload_id + 1) as usize }
}

impl DocumentId {
    /// Whether both are the same document, whatever its reloads.
    pub fn is_same_document(&self, other: &DocumentId) -> (b: bool)
        ensures
            b == (self.id == other.id),
    {
        self.id == other.id
    }

    /// The identity of the next document opened.
    pub fn open(&self) -> (d: DocumentId)
        requires
            self.id < usize::MAX,
        ensures
            d == opened(*self),
    {
        DocumentId { id: self.id + 1, reload_id: 0 }
    }

    /// The identity of this document reloaded.
    pub fn reload(&self) -> (d: DocumentId)
        requires
            self.reload_id < usize::MAX,
        ensures
            d == reloaded(*self),
    {
        DocumentId { id: self.id, reload_id: self.reload_id + 1 }
    }

    /// Whether this is the first load of the document.
    pub fn is_first_load(&self) -> (b: bool)
        ensures
            b == (self.reload_id == 0),
    {
        self.reload_id == 0
    }

    /// The identity as text: `D`, the id, a dot, and the reload count.
    pub fn label(&self) -> (s: String)
        ensures
            s@ == seq!['D'] + decimal(self.id as nat) + seq!['.'] + decimal(self.reload_id as nat),
    {
        let mut s = String::new();
        s.push('D');
        s.append(usize_string(self.id).as_str());
        s.push('.');
        s.append(usize_string(self.reload_id).as_str());
        s
    }
}

/// A movement count is taken once: taking it again finds none, and leaves the queue empty.
pub proof fn count_is_taken_once(q: InputQueue)
    ensures
        count_taken(count_taken(q).1).0 is None,
        q is MovementCount ==> count_taken(q).1 is Empty,
{
}

/// Reloading keeps the document and is no first load; opening another document gives a
/// different document on its first load.
pub proof fn reload_and_open(d: DocumentId)
    requires
        d.id < usize::MAX,
        d.reload_id < usize::MAX,
    ensures
        reloaded(d).id == d.id,
        reloaded(d).reload_id != 0,
        opened(d).id != d.id,
        opened(d).reload_id == 0,
        opened(reloaded(d)) == opened(d),
{
}

/// The decimal representation of `n`.
pub fn usize_string(n: usize) -> (s: String)
    ensures
        s@ == decimal(n as nat),
    decreases n,
{
    if n < 10 {
        decimal_string(n as u32)
    } else {
        let mut s = usize_string(n / 10);
        let d = decimal_string((n % 10) as u32);
        proof {
            assert(decimal((n % 10) as nat) == seq![crate::lines::digit_char((n % 10) as nat)]);
        }
        s.append(d.as_str());
        s
    }
}

/// One step of an id counter that starts unset: the id taken and the counter after it.
pub open spec fn counter_step(c: Option<usize>) -> (usize, Option<usize>) {
    match c {
        None => (0, Some(0usize)),
        Some(i) => ((i + 1) as usize, Some((i + 1) as usize)),
    }
}

/// The counter after `k` ids were taken from an unset one.
pub open spec fn counter_after(k: nat) -> Option<usize>
    decreases k,
{
    if k == 0 {
        None
    } else {
        counter_step(counter_after((k - 1) as nat)).1
    }
}

/// Successive calls on an unset counter give the ids 0, 1, 2, ... in turn: after `k` calls
/// the counter holds the last id given, `k - 1`, and the next call gives `k`.
pub proof fn successive_ids_count_up(k: nat)
    requires
        k <= usize::MAX,
    ensures
        counter_after(k) == (if k == 0 { None } else { Some((k - 1) as usize) }),
        counter_step(counter_after(k)).0 == k,
    decreases k,
{
    if k > 0 {
        successive_ids_count_up((k - 1) as nat);
    }
}

/// Take the next id of a counter that starts unset: 0 first, then one more each time.
pub fn post_incr_section_id(section_id: &mut Option<usize>) -> (id: usize)
    requires
        match *old(section_id) {
            Some(i) => i < usize::MAX,
            None => true,
        },
    ensures
        match *old(section_id) {
            None => id == 0 && *final(section_id) == Some(0usize),
            Some(i) => id == i + 1 && *final(section_id) == Some((i + 1) as usize),
        },
        (id, *final(section_id)) == counter_step(*old(section_id)),
{
    match *section_id {
        None => {
            *section_id = Some(0);
            0
        },
        Some(i) => {
            *section_id = Some(i + 1);
            i + 1
        },
    }
}

/// Take the next id of a counter of sources that starts unset: 0 first, then one more each
/// time.
pub fn post_incr_source_id(source_id: &mut Option<usize>) -> (id: usize)
    requires
        match *old(source_id) {
            Some(i) => i < usize::MAX,
            None => true,
        },
    ensures
        match *old(source_id) {
            None => id == 0 && *final(source_id) == Some(0usize),
            Some(i) => id == i + 1 && *final(source_id) == Some((i + 1) as usize),
        },
        (id, *final(source_id)) == counter_step(*old(source_id)),
{
    match *source_id {
        None => {
            *source_id = Some(0);
            0
        },
        Some(i) => {
            *source_id = Some(i + 1);
            i + 1
        },
    }
}

/// Where the log goes.
#[derive(Debug, Clone, PartialEq, Eq)]
pub enum LogTarget {
    Off,
    Stderr,
    Path(String),
}

impl LogTarget {
    /// The log target of a command-line value: none for no value, standard error for an empty
    /// one, a file otherwise.
    pub fn from_arg(value: Option<&String>) -> (t: LogTarget)
        ensures
            match value {
                None => t is Off,
                Some(s) => if s@.len() == 0 { t is Stderr } else { t matches LogTarget::Path(p) && p@ == s@ },
            },
    {
        match value {
            None => LogTarget::Off,
            Some(s) => if s.as_str().is_empty() { LogTarget::Stderr } else { LogTarget::Path(s.clone()) },
        }
    }
}

/// What polling for input found.
#[derive(Debug, Clone, Copy, PartialEq, Eq, Structural)]
pub enum PollResult {
    Idle,
    HadInput,
    Quit,
}

/// The direction of a search for the next link or match.
#[derive(Debug, Clone, Copy, PartialEq, Eq, Structural)]
pub enum FindMode {
    Prev,
    Next,
}

/// What a search looks for.
#[derive(Debug, Clone, Copy, PartialEq, Eq, Structural)]
pub enum FindTarget {
    Link,
    Search,
}

/// A document built into the viewer.
#[derive(Debug, Clone, Copy, PartialEq, Eq, Structural)]
pub enum BuiltIn {
    Help,
    HelpConfiguration,
    Welcome,
    Changelog,
}

impl BuiltIn {
    /// The built-in document that a relative link of a built-in document opens, if any.
    pub fn relative_target(link_url: &str) -> (r: Option<BuiltIn>)
        ensures
            r == if link_url@ == "./help_configuration.md"@ { Some(BuiltIn::HelpConfiguration) } else { None::<BuiltIn> },
    {
        if link_url.to_owned() == "./help_configuration.md".to_owned() {
            Some(BuiltIn::HelpConfiguration)
        } else {
            None
        }
    }
}

/// How headers are drawn.
#[derive(Debug, Clone, Copy, PartialEq, Eq, Structural)]
pub enum HeaderConfig {
    Line,
    TextSizeProtocol,
    Image,
}

/// An image of a document: its destination and its description.
#[derive(Debug, Clone, PartialEq, Eq)]
pub struct MarkdownImage {
    pub destination: String,
    pub description: String,
}

/// Events from section iteration that need more work: an image to load, or a header to draw.
#[derive(Debug, Clone, PartialEq, Eq)]
pub enum SectionEvent {
    Image(usize, MarkdownImage),
    Header(usize, String, u8),
}

} // verus!
