//! Tracking of links across the spans of wrapped lines, to find back their URLs and the
//! columns that their descriptions take.
use vstd::prelude::*;

use crate::modifier::Modifier;
use crate::span::{Span, SpanView};
use crate::width::{display_width, str_width};

verus! {

/// A link or image found while tracking spans.
#[derive(Debug, PartialEq)]
pub enum TrackedUrl {
    /// A link whose description starts at column `start` of the line `lines` lines above the
    /// line where it ends, and ends at column `end`.
    Link { start: u16, lines: usize, end: u16, url: String, is_reference: bool },
    /// An image with its description and URL.
    Image { desc: String, url: String },
}

/// The mathematical value of a [`TrackedUrl`].
pub enum TrackedUrlView {
    Link { start: u16, lines: usize, end: u16, url: Seq<char>, is_reference: bool },
    Image { desc: Seq<char>, url: Seq<char> },
}

impl View for TrackedUrl {
    type V = TrackedUrlView;

    open spec fn view(&self) -> TrackedUrlView {
        match self {
            TrackedUrl::Link { start, lines, end, url, is_reference } => TrackedUrlView::Link {
                start: *start,
                lines: *lines,
                end: *end,
                url: url@,
                is_reference: *is_reference,
            },
            TrackedUrl::Image { desc, url } => TrackedUrlView::Image { desc: desc@, url: url@ },
        }
    }
}

/// The views of a sequence of tracked URLs.
pub open spec fn urls_view(s: Seq<TrackedUrl>) -> Seq<TrackedUrlView> {
    s.map_values(|u: TrackedUrl| u@)
}

pub proof fn lemma_urls_view_push(s: Seq<TrackedUrl>, x: TrackedUrl)
    ensures
        urls_view(s.push(x)) == urls_view(s).push(x@),
{
    assert(urls_view(s.push(x)) =~= urls_view(s).push(x@));
}

impl TrackedUrl {
    /// An inline link.
    pub fn link(url: String, start: u16, end: u16, lines: usize) -> (t: TrackedUrl)
        ensures
            t@ == (TrackedUrlView::Link { start, lines, end, url: url@, is_reference: false }),
    {
        TrackedUrl::Link { start, lines, end, url, is_reference: false }
    }

    /// A reference link.
    pub fn link_reference(url: String, start: u16, end: u16, lines: usize) -> (t: TrackedUrl)
        ensures
            t@ == (TrackedUrlView::Link { start, lines, end, url: url@, is_reference: true }),
    {
        TrackedUrl::Link { start, lines, end, url, is_reference: true }
    }

    /// An image.
    pub fn image(desc: String, url: String) -> (t: TrackedUrl)
        ensures
            t@ == (TrackedUrlView::Image { desc: desc@, url: url@ }),
    {
        TrackedUrl::Image { desc, url }
    }
}

/// Where the tracker is within a link or image.
pub enum LinkState {
    Idle,
    LinkDescOpen,
    LinkDesc(u16, usize),
    LinkDescClose(u16, usize, u16),
    LinkUrlOpen(u16, usize, u16),
    LinkUrl(u16, usize, u16, String),
    /// A bare URL being accumulated: start column, lines above, end column, URL so far.
    BareLink(u16, usize, u16, String),
    ImageDesc(String),
    ImageUrl(String, String),
}

/// The mathematical value of a [`LinkState`].
pub enum LinkStateView {
    Idle,
    LinkDescOpen,
    LinkDesc(u16, usize),
    LinkDescClose(u16, usize, u16),
    LinkUrlOpen(u16, usize, u16),
    LinkUrl(u16, usize, u16, Seq<char>),
    BareLink(u16, usize, u16, Seq<char>),
    ImageDesc(Seq<char>),
    ImageUrl(Seq<char>, Seq<char>),
}

impl View for LinkState {
    type V = LinkStateView;

    open spec fn view(&self) -> LinkStateView {
        match self {
            LinkState::Idle => LinkStateView::Idle,
            LinkState::LinkDescOpen => LinkStateView::LinkDescOpen,
            LinkState::LinkDesc(s, l) => LinkStateView::LinkDesc(*s, *l),
            LinkState::LinkDescClose(s, l, e) => LinkStateView::LinkDescClose(*s, *l, *e),
            LinkState::LinkUrlOpen(s, l, e) => LinkStateView::LinkUrlOpen(*s, *l, *e),
            LinkState::LinkUrl(s, l, e, u) => LinkStateView::LinkUrl(*s, *l, *e, u@),
            LinkState::BareLink(s, l, e, u) => LinkStateView::BareLink(*s, *l, *e, u@),
            LinkState::ImageDesc(d) => LinkStateView::ImageDesc(d@),
            LinkState::ImageUrl(d, u) => LinkStateView::ImageUrl(d@, u@),
        }
    }
}

/// The result of tracking images from a state and a span: URLs found so far and the new state.
pub open spec fn track_images_spec(urls: Seq<TrackedUrlView>, state: LinkStateView, m: Modifier, c: Seq<char>) -> (Seq<TrackedUrlView>, LinkStateView) {
    let desc = m.has(Modifier::IMAGE | Modifier::LINK_DESCRIPTION);
    let url = m.has(Modifier::IMAGE | Modifier::LINK_URL);
    match state {
        LinkStateView::Idle => if desc {
            (urls, LinkStateView::ImageDesc(if c != seq!['!', '['] { c } else { Seq::empty() }))
        } else {
            (urls, state)
        },
        LinkStateView::ImageDesc(d) => if desc {
            if c != seq![']', '('] {
                (urls, LinkStateView::ImageDesc(d + c))
            } else {
                (urls, LinkStateView::ImageUrl(d, Seq::empty()))
            }
        } else if url {
            (urls, LinkStateView::ImageUrl(d, c))
        } else {
            (urls, state)
        },
        LinkStateView::ImageUrl(d, u) => if url {
            (urls, LinkStateView::ImageUrl(d, u + c))
        } else {
            (urls.push(TrackedUrlView::Image { desc: d, url: u }), LinkStateView::Idle)
        },
        _ => (urls, state),
    }
}


/// Tracker over the spans of consecutive lines, which extracts links as [`TrackedUrl::Link`]
/// with the columns where their description starts and ends, and images.
pub struct LinkTracker {
    offset: u16,
    urls: Vec<TrackedUrl>,
    state: LinkState,
    nested_state: LinkState,
    hide_urls: bool,
}

/// The mathematical value of a [`LinkTracker`].
pub struct TrackerView {
    pub offset: u16,
    pub urls: Seq<TrackedUrlView>,
    pub state: LinkStateView,
    pub nested: LinkStateView,
    pub hide_urls: bool,
}

impl View for LinkTracker {
    type V = TrackerView;

    closed spec fn view(&self) -> TrackerView {
        TrackerView {
            offset: self.offset,
            urls: urls_view(self.urls@),
            state: self.state@,
            nested: self.nested_state@,
            hide_urls: self.hide_urls,
        }
    }
}

/// The state after a span with modifiers `m`, content `c` and `w` columns, at column
/// `offset`, with URLs `urls` found so far.
pub open spec fn track_state(urls: Seq<TrackedUrlView>, state: LinkStateView, offset: u16, m: Modifier, c: Seq<char>, w: u16) -> (Seq<TrackedUrlView>, LinkStateView) {
    let desc_wrapper = m.has(Modifier::LINK | Modifier::LINK_DESCRIPTION_WRAPPER);
    let desc = m.has(Modifier::LINK | Modifier::LINK_DESCRIPTION);
    let url_wrapper = m.has(Modifier::LINK | Modifier::LINK_URL_WRAPPER);
    let url = m.has(Modifier::LINK | Modifier::LINK_URL);
    let bare = m.has(Modifier::BARE_LINK | Modifier::LINK_URL);
    match state {
        LinkStateView::Idle => if desc_wrapper {
            (urls, LinkStateView::LinkDescOpen)
        } else if bare {
            (urls, LinkStateView::BareLink(offset, 0, offset.saturating_add(w), c))
        } else {
            track_images_spec(urls, state, m, c)
        },
        LinkStateView::LinkDescOpen => if desc {
            (urls, LinkStateView::LinkDesc(offset, 0))
        } else {
            track_images_spec(urls, state, m, c)
        },
        LinkStateView::LinkDesc(start, lines) => if desc {
            (urls, state)
        } else if desc_wrapper {
            (urls, LinkStateView::LinkDescClose(start, lines, offset))
        } else {
            track_images_spec(urls, state, m, c)
        },
        LinkStateView::LinkDescClose(start, lines, end) => if url_wrapper {
            (urls, LinkStateView::LinkUrlOpen(start, lines, end))
        } else if url {
            (urls.push(TrackedUrlView::Link { start, lines, end, url: c, is_reference: true }), LinkStateView::Idle)
        } else {
            track_images_spec(urls, state, m, c)
        },
        LinkStateView::LinkUrlOpen(start, lines, end) => if url {
            (urls, LinkStateView::LinkUrl(start, lines, end, c))
        } else {
            track_images_spec(urls, state, m, c)
        },
        LinkStateView::LinkUrl(start, lines, end, u) => if url {
            (urls, LinkStateView::LinkUrl(start, lines, end, u + c))
        } else if url_wrapper {
            (urls.push(TrackedUrlView::Link { start, lines, end, url: u, is_reference: false }), LinkStateView::Idle)
        } else {
            track_images_spec(urls, state, m, c)
        },
        LinkStateView::BareLink(start, lines, end, u) => if bare {
            (urls, LinkStateView::BareLink(start, lines, offset.saturating_add(w), u + c))
        } else {
            track_images_spec(urls.push(TrackedUrlView::Link { start, lines, end, url: u, is_reference: false }), LinkStateView::Idle, m, c)
        },
        _ => track_images_spec(urls, state, m, c),
    }
}

/// The columns that a span advances the tracker by.
pub open spec fn advance(t: TrackerView, v: SpanView) -> u16 {
    if t.hide_urls && v.modifiers.is_hideable_url() {
        0
    } else {
        display_width(v.content) as u16
    }
}

/// The tracker after it has seen span `v`.
pub open spec fn track_spec(t: TrackerView, v: SpanView) -> TrackerView {
    let w = display_width(v.content) as u16;
    let (urls1, state1) = track_state(t.urls, t.state, t.offset, v.modifiers, v.content, w);
    let (urls2, nested1) = if state1 is LinkDesc {
        track_images_spec(urls1, t.nested, v.modifiers, v.content)
    } else {
        (urls1, t.nested)
    };
    TrackerView {
        offset: t.offset.saturating_add(advance(t, v)),
        urls: urls2,
        state: state1,
        nested: nested1,
        hide_urls: t.hide_urls,
    }
}

/// The tracker at the end of a line, given the modifiers of the first span of the next line.
pub open spec fn carriage_return_spec(t: TrackerView, next: Option<Modifier>) -> (TrackerView, Option<u16>) {
    let continues = match next {
        Some(m) => m.has(Modifier::BARE_LINK | Modifier::LINK_URL),
        None => false,
    };
    let (urls1, state1) = match t.state {
        LinkStateView::BareLink(start, lines, end, u) => if !continues {
            (t.urls.push(TrackedUrlView::Link { start, lines, end, url: u, is_reference: false }), LinkStateView::Idle)
        } else {
            (t.urls, t.state)
        },
        _ => (t.urls, t.state),
    };
    let state2 = match state1 {
        LinkStateView::LinkDesc(s, l) => LinkStateView::LinkDesc(s, l.saturating_add(1)),
        LinkStateView::BareLink(s, l, e, u) => LinkStateView::BareLink(s, l.saturating_add(1), e, u),
        _ => state1,
    };
    let ret = match state2 {
        LinkStateView::BareLink(..) => if continues { Some(t.offset) } else { None },
        LinkStateView::LinkDesc(..) => Some(t.offset),
        _ => None,
    };
    (TrackerView { offset: 0, urls: urls1, state: state2, nested: t.nested, hide_urls: t.hide_urls }, ret)
}


/// The column where the line ends, when it ends inside a link description.
pub open spec fn mid_link(t: TrackerView) -> Option<u16> {
    match t.state {
        LinkStateView::LinkDesc(..) => Some(t.offset),
        _ => None,
    }
}

/// `s` with `t` appended.
fn concat(mut s: String, t: &String) -> (r: String)
    ensures
        r@ == s@ + t@,
{
    s.append(t.as_str());
    s
}

impl LinkTracker {
    /// A tracker at the start of a line, outside any link.
    pub fn new() -> (t: LinkTracker)
        ensures
            t@ == (TrackerView {
                offset: 0,
                urls: Seq::empty(),
                state: LinkStateView::Idle,
                nested: LinkStateView::Idle,
                hide_urls: false,
            }),
    {
        let t = LinkTracker {
            offset: 0,
            urls: Vec::new(),
            state: LinkState::Idle,
            nested_state: LinkState::Idle,
            hide_urls: false,
        };
        assert(t@.urls =~= Seq::empty());
        t
    }

    /// This tracker, set to not count hidden URLs as columns.
    pub fn hide_urls(self, hide_urls: bool) -> (t: LinkTracker)
        ensures
            t@ == (TrackerView { hide_urls, ..self@ }),
    {
        LinkTracker { hide_urls, ..self }
    }

    fn track_images(&mut self, state: LinkState, modifiers: Modifier, content: &String) -> (r: LinkState)
        ensures
            (final(self)@.urls, r@) == track_images_spec(old(self)@.urls, state@, modifiers, content@),
            final(self)@.offset == old(self)@.offset,
            final(self)@.state == old(self)@.state,
            final(self)@.nested == old(self)@.nested,
            final(self)@.hide_urls == old(self)@.hide_urls,
    {
        proof {
            reveal_strlit("![");
            reveal_strlit("](");
            assert("!["@ =~= seq!['!', '[']);
            assert("]("@ =~= seq![']', '(']);
        }
        let desc = modifiers.contains(Modifier::IMAGE | Modifier::LINK_DESCRIPTION);
        let url = modifiers.contains(Modifier::IMAGE | Modifier::LINK_URL);
        match state {
            LinkState::Idle => {
                if desc {
                    if !(*content == "![".to_owned()) {
                        LinkState::ImageDesc(content.clone())
                    } else {
                        LinkState::ImageDesc(String::new())
                    }
                } else {
                    LinkState::Idle
                }
            },
            LinkState::ImageDesc(d) => {
                if desc {
                    if !(*content == "](".to_owned()) {
                        LinkState::ImageDesc(concat(d, content))
                    } else {
                        LinkState::ImageUrl(d, String::new())
                    }
                } else if url {
                    LinkState::ImageUrl(d, content.clone())
                } else {
                    LinkState::ImageDesc(d)
                }
            },
            LinkState::ImageUrl(d, u) => {
                if url {
                    LinkState::ImageUrl(d, concat(u, content))
                } else {
                    let ghost old_urls = self.urls@;
                    self.urls.push(TrackedUrl::image(d, u));
                    proof { lemma_urls_view_push(old_urls, self.urls@.last()); }
                    LinkState::Idle
                }
            },
            other => other,
        }
    }

    /// Track one span of the current line.
    pub fn track(&mut self, node: &Span)
        ensures
            final(self)@ == track_spec(old(self)@, node@),
    {
        let modifiers = node.modifiers;
        let content = &node.content;
        let span_width = str_width(content.as_str()) as u16;
        let desc_wrapper = modifiers.contains(Modifier::LINK | Modifier::LINK_DESCRIPTION_WRAPPER);
        let desc = modifiers.contains(Modifier::LINK | Modifier::LINK_DESCRIPTION);
        let url_wrapper = modifiers.contains(Modifier::LINK | Modifier::LINK_URL_WRAPPER);
        let url = modifiers.contains(Modifier::LINK | Modifier::LINK_URL);
        let bare = modifiers.contains(Modifier::BARE_LINK | Modifier::LINK_URL);
        let offset = self.offset;
        let mut state = LinkState::Idle;
        std::mem::swap(&mut state, &mut self.state);
        let new_state = match state {
            LinkState::Idle => {
                if desc_wrapper {
                    LinkState::LinkDescOpen
                } else if bare {
                    LinkState::BareLink(offset, 0, offset.saturating_add(span_width), content.clone())
                } else {
                    self.track_images(LinkState::Idle, modifiers, content)
                }
            },
            LinkState::LinkDescOpen => {
                if desc {
                    LinkState::LinkDesc(offset, 0)
                } else {
                    self.track_images(LinkState::LinkDescOpen, modifiers, content)
                }
            },
            LinkState::LinkDesc(start, lines) => {
                if desc {
                    LinkState::LinkDesc(start, lines)
                } else if desc_wrapper {
                    LinkState::LinkDescClose(start, lines, offset)
                } else {
                    self.track_images(LinkState::LinkDesc(start, lines), modifiers, content)
                }
            },
            LinkState::LinkDescClose(start, lines, end) => {
                if url_wrapper {
                    LinkState::LinkUrlOpen(start, lines, end)
                } else if url {
                    let ghost old_urls = self.urls@;
                    self.urls.push(TrackedUrl::link_reference(content.clone(), start, end, lines));
                    proof { lemma_urls_view_push(old_urls, self.urls@.last()); }
                    LinkState::Idle
                } else {
                    self.track_images(LinkState::LinkDescClose(start, lines, end), modifiers, content)
                }
            },
            LinkState::LinkUrlOpen(start, lines, end) => {
                if url {
                    LinkState::LinkUrl(start, lines, end, content.clone())
                } else {
                    self.track_images(LinkState::LinkUrlOpen(start, lines, end), modifiers, content)
                }
            },
            LinkState::LinkUrl(start, lines, end, u) => {
                if url {
                    LinkState::LinkUrl(start, lines, end, concat(u, content))
                } else if url_wrapper {
                    let ghost old_urls = self.urls@;
                    self.urls.push(TrackedUrl::link(u, start, end, lines));
                    proof { lemma_urls_view_push(old_urls, self.urls@.last()); }
                    LinkState::Idle
                } else {
                    self.track_images(LinkState::LinkUrl(start, lines, end, u), modifiers, content)
                }
            },
            LinkState::BareLink(start, lines, end, u) => {
                if bare {
                    LinkState::BareLink(start, lines, offset.saturating_add(span_width), concat(u, content))
                } else {
                    let ghost old_urls = self.urls@;
                    self.urls.push(TrackedUrl::link(u, start, end, lines));
                    proof { lemma_urls_view_push(old_urls, self.urls@.last()); }
                    self.track_images(LinkState::Idle, modifiers, content)
                }
            },
            other => self.track_images(other, modifiers, content),
        };
        self.state = new_state;
        if let LinkState::LinkDesc(_, _) = self.state {
            let mut nested = LinkState::Idle;
            std::mem::swap(&mut nested, &mut self.nested_state);
            let r = self.track_images(nested, modifiers, content);
            self.nested_state = r;
        }
        let advance: u16 = if self.hide_urls && modifiers.hideable_url() { 0 } else { span_width };
        self.offset = self.offset.saturating_add(advance);
    }

    /// End the current line. `next` is the modifiers of the first span on the following line,
    /// if any, which decides whether a pending bare link continues there. Returns the column
    /// where the line ended if a link continues on the next line.
    pub fn carriage_return(&mut self, next: Option<Modifier>) -> (r: Option<u16>)
        ensures
            (final(self)@, r) == carriage_return_spec(old(self)@, next),
    {
        let continues = match next {
            Some(m) => m.contains(Modifier::BARE_LINK | Modifier::LINK_URL),
            None => false,
        };
        let mut state = LinkState::Idle;
        std::mem::swap(&mut state, &mut self.state);
        let state1 = match state {
            LinkState::BareLink(start, lines, end, u) => {
                if !continues {
                    let ghost old_urls = self.urls@;
                    self.urls.push(TrackedUrl::link(u, start, end, lines));
                    proof { lemma_urls_view_push(old_urls, self.urls@.last()); }
                    LinkState::Idle
                } else {
                    LinkState::BareLink(start, lines, end, u)
                }
            },
            other => other,
        };
        let end_offset = self.offset;
        self.offset = 0;
        let state2 = match state1 {
            LinkState::LinkDesc(s, l) => LinkState::LinkDesc(s, l.saturating_add(1)),
            LinkState::BareLink(s, l, e, u) => LinkState::BareLink(s, l.saturating_add(1), e, u),
            other => other,
        };
        let ret = match &state2 {
            LinkState::BareLink(..) => if continues { Some(end_offset) } else { None },
            LinkState::LinkDesc(..) => Some(end_offset),
            _ => None,
        };
        self.state = state2;
        ret
    }

    /// The column where the line ends so far, when it is inside a link description.
    pub fn is_mid_link(&self) -> (r: Option<u16>)
        ensures
            r == mid_link(self@),
    {
        match &self.state {
            LinkState::LinkDesc(..) => Some(self.offset),
            _ => None,
        }
    }

    /// Take the URLs found so far, leaving none.
    pub fn take_urls(&mut self) -> (r: Vec<TrackedUrl>)
        ensures
            urls_view(r@) == old(self)@.urls,
            final(self)@ == (TrackerView { urls: Seq::empty(), ..old(self)@ }),
    {
        let mut extras: Vec<TrackedUrl> = Vec::new();
        std::mem::swap(&mut self.urls, &mut extras);
        assert(urls_view(self.urls@) =~= Seq::empty());
        extras
    }
}

} // verus!
