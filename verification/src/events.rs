//! What the viewer does with the events that the parsing worker sends: events of another
//! document than the one shown are stale and ignored; the others place sections, ask for
//! images and headers to be drawn, end a parse, or switch documents.
use vstd::prelude::*;

use crate::model::{Cursor, CursorView, DocumentId};

verus! {

/// An event from the worker, by what the viewer decides on: its kind and the document it
/// belongs to.
#[derive(Debug, Clone, Copy, PartialEq, Eq, Structural)]
pub enum DocEvent {
    /// A new document is being parsed.
    NewDocument(DocumentId),
    /// Parsing ended; the id of the last section, if any section was parsed.
    ParseDone(DocumentId, Option<usize>),
    /// A section was parsed.
    Parsed(DocumentId),
    /// Sections were updated.
    Update(DocumentId),
    /// An image was found.
    ParsedImage(DocumentId),
    /// A header was found.
    ParseHeader(DocumentId),
    /// The file changed on disk.
    FileChanged,
}

/// What the viewer does with an event.
#[derive(Debug, Clone, Copy, PartialEq, Eq, Structural)]
pub enum EventAction {
    /// Show this document from now on.
    SwitchDocument(DocumentId),
    /// The event belongs to another document: nothing to do.
    Stale,
    /// Drop the sections after the last one parsed, and search the document again.
    EndParse(Option<usize>),
    /// Add the section at the end (first load), or replace the sections with its id.
    PlaceSection { push: bool },
    /// Replace the sections with the ids of the updates.
    ApplyUpdates,
    /// Place the image of the section: where it comes from (an image already loaded with
    /// the same URL, or a loading placeholder, pushed on a first load) is decided by
    /// [`crate::jobs::place_image`].
    PlaceImage { push: bool },
    /// Place the header as text (pushed on a first load), and ask for it to be drawn big if
    /// headers can be drawn.
    PlaceHeader { push: bool, render: bool },
    /// Reload the file.
    Reload,
}

/// The event's document, if it belongs to one.
pub open spec fn event_document(e: DocEvent) -> Option<DocumentId> {
    match e {
        DocEvent::NewDocument(d) => Some(d),
        DocEvent::ParseDone(d, _) => Some(d),
        DocEvent::Parsed(d) => Some(d),
        DocEvent::Update(d) => Some(d),
        DocEvent::ParsedImage(d) => Some(d),
        DocEvent::ParseHeader(d) => Some(d),
        DocEvent::FileChanged => None,
    }
}

/// The document shown after an event, what is done with the event, and whether the event
/// ended a parse.
pub open spec fn event_step(shown: DocumentId, e: DocEvent, can_render_headers: bool) -> (DocumentId, EventAction, bool) {
    let first = shown.reload_id == 0;
    match e {
        DocEvent::NewDocument(d) => (d, EventAction::SwitchDocument(d), false),
        DocEvent::FileChanged => (shown, EventAction::Reload, false),
        _ => {
            let d = event_document(e)->0;
            if d.id != shown.id {
                (shown, EventAction::Stale, false)
            } else {
                match e {
                    DocEvent::ParseDone(_, last) => (shown, EventAction::EndParse(last), true),
                    DocEvent::Parsed(_) => (shown, EventAction::PlaceSection { push: first }, false),
                    DocEvent::Update(_) => (shown, EventAction::ApplyUpdates, false),
                    DocEvent::ParsedImage(_) => (shown, EventAction::PlaceImage { push: first }, false),
                    _ => (shown, EventAction::PlaceHeader { push: first, render: can_render_headers }, false),
                }
            }
        },
    }
}

/// Decide what to do with an event (see [`event_step`]); `shown` becomes the document shown
/// after it, and the result says whether the event ended a parse.
pub fn decide_event(shown: &mut DocumentId, e: DocEvent, can_render_headers: bool) -> (r: (EventAction, bool))
    ensures
        (*final(shown), r.0, r.1) == event_step(*old(shown), e, can_render_headers),
{
    let first = shown.is_first_load();
    match e {
        DocEvent::NewDocument(d) => {
            *shown = d;
            (EventAction::SwitchDocument(d), false)
        },
        DocEvent::FileChanged => (EventAction::Reload, false),
        DocEvent::ParseDone(d, last) => if shown.is_same_document(&d) { (EventAction::EndParse(last), true) } else { (EventAction::Stale, false) },
        DocEvent::Parsed(d) => if shown.is_same_document(&d) { (EventAction::PlaceSection { push: first }, false) } else { (EventAction::Stale, false) },
        DocEvent::Update(d) => if shown.is_same_document(&d) { (EventAction::ApplyUpdates, false) } else { (EventAction::Stale, false) },
        DocEvent::ParsedImage(d) => if shown.is_same_document(&d) { (EventAction::PlaceImage { push: first }, false) } else { (EventAction::Stale, false) },
        DocEvent::ParseHeader(d) => if shown.is_same_document(&d) {
            (EventAction::PlaceHeader { push: first, render: can_render_headers }, false)
        } else {
            (EventAction::Stale, false)
        },
    }
}

/// The actions for a run of events, in order, with the document shown after them, and
/// whether some event ended a parse.
pub open spec fn events_run(shown: DocumentId, es: Seq<DocEvent>, can_render_headers: bool) -> (DocumentId, Seq<EventAction>, bool)
    decreases es.len(),
{
    if es.len() == 0 {
        (shown, Seq::empty(), false)
    } else {
        let (d0, acts, done) = events_run(shown, es.drop_last(), can_render_headers);
        let (d1, a, dn) = event_step(d0, es.last(), can_render_headers);
        (d1, acts.push(a), done || dn)
    }
}

/// Decide on a run of events (see [`events_run`]).
pub fn decide_events(shown: &mut DocumentId, es: &Vec<DocEvent>, can_render_headers: bool) -> (r: (Vec<EventAction>, bool))
    ensures
        (*final(shown), r.0@, r.1) == events_run(*old(shown), es@, can_render_headers),
{
    let mut acts: Vec<EventAction> = Vec::new();
    let mut done = false;
    for i in 0..es.len()
        invariant
            (*shown, acts@, done) == events_run(*old(shown), es@.take(i as int), can_render_headers),
    {
        proof { assert(es@.take(i + 1).drop_last() =~= es@.take(i as int)); }
        let (a, d) = decide_event(shown, es[i], can_render_headers);
        acts.push(a);
        done = done || d;
    }
    assert(es@.take(es@.len() as int) =~= es@);
    (acts, done)
}

/// Events of another document than the one shown change nothing; after a new document is
/// announced, its events are the ones acted upon.
pub proof fn stale_events_change_nothing(shown: DocumentId, e: DocEvent, can_render_headers: bool)
    ensures
        (event_document(e) matches Some(d) && d.id != shown.id && !(e is NewDocument))
            ==> event_step(shown, e, can_render_headers) == (shown, EventAction::Stale, false),
        e matches DocEvent::NewDocument(d) ==> event_step(shown, e, can_render_headers).0 == d,
{
}

/// The cursor after the document was parsed again: a search stays (with no match pointed at
/// yet) and is run again; links and no cursor become no cursor.
pub open spec fn cursor_after_reparse(c: CursorView) -> (CursorView, Option<Seq<char>>) {
    match c {
        CursorView::Search(needle, _) => (CursorView::Search(needle, None), Some(needle)),
        _ => (CursorView::Inactive, None),
    }
}

/// Reset the cursor after the document was parsed again (see [`cursor_after_reparse`]); the
/// result is the search to run again, if any.
pub fn reset_cursor_after_reparse(cursor: &mut Cursor) -> (r: Option<String>)
    ensures
        (final(cursor)@, match r { Some(s) => Some(s@), None => None }) == cursor_after_reparse(old(cursor)@),
{
    let mut old_cursor = Cursor::Inactive;
    std::mem::swap(&mut old_cursor, cursor);
    match old_cursor {
        Cursor::Search(needle, _) => {
            let again = needle.clone();
            *cursor = Cursor::Search(needle, None);
            Some(again)
        },
        _ => None,
    }
}

} // verus!
