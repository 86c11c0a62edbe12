//! Spans of text with modifiers, and output lines made of spans.
use vstd::prelude::*;

use crate::modifier::Modifier;

verus! {

/// A source content, such as the full URL of a link.
///
/// Several spans carry the same source content when some content (a URL) has been
/// line-wrapped: each part keeps the whole.
#[derive(Debug, Clone, PartialEq)]
pub struct SourceContent(pub String);

impl View for SourceContent {
    type V = Seq<char>;

    open spec fn view(&self) -> Seq<char> {
        self.0@
    }
}

impl SourceContent {
    /// Source content holding `value`.
    pub fn from_str(value: &str) -> (s: SourceContent)
        ensures
            s@ == value@,
    {
        SourceContent(value.to_owned())
    }

    /// A copy of this source content.
    pub fn copy(&self) -> (s: SourceContent)
        ensures
            s@ == self@,
    {
        SourceContent(self.0.clone())
    }

    /// The content as a string slice.
    pub fn as_str(&self) -> (s: &str)
        ensures
            s@ == self@,
    {
        self.0.as_str()
    }
}

/// The mathematical value of a [`Span`].
pub struct SpanView {
    pub content: Seq<char>,
    pub modifiers: Modifier,
    pub source: Option<Seq<char>>,
}

/// Span with modifiers.
///
/// Also may have some [`SourceContent`], e.g. links.
#[derive(Debug, Clone, PartialEq)]
pub struct Span {
    pub content: String,
    pub modifiers: Modifier,
    /// Original full content for spans that may be split (e.g., URLs that wrap across lines).
    /// When present, this should be used instead of `content` for semantic purposes like link
    /// targets.
    pub source_content: Option<SourceContent>,
}

pub open spec fn source_view(s: Option<SourceContent>) -> Option<Seq<char>> {
    match s {
        Some(c) => Some(c@),
        None => None,
    }
}

impl View for Span {
    type V = SpanView;

    open spec fn view(&self) -> SpanView {
        SpanView {
            content: self.content@,
            modifiers: self.modifiers,
            source: source_view(self.source_content),
        }
    }
}

/// The views of a sequence of spans.
pub open spec fn spans_view(s: Seq<Span>) -> Seq<SpanView> {
    s.map_values(|x: Span| x@)
}

/// A span view with the given content and modifiers and no source content.
pub open spec fn plain(content: Seq<char>, modifiers: Modifier) -> SpanView {
    SpanView { content, modifiers, source: None }
}

pub fn copy_source(s: &Option<SourceContent>) -> (r: Option<SourceContent>)
    ensures
        source_view(r) == source_view(*s),
{
    match s {
        Some(c) => Some(c.copy()),
        None => None,
    }
}

impl Span {
    pub fn new(content: String, extra: Modifier) -> (s: Span)
        ensures
            s@ == plain(content@, extra),
    {
        Span { content, modifiers: extra, source_content: None }
    }

    /// Create a span with source content (for URLs that may be split across lines).
    ///
    /// Without a given `url` the content itself is the source content.
    pub fn link(content: String, modifiers: Modifier, url: Option<SourceContent>) -> (s: Span)
        ensures
            s@.content == content@,
            s@.modifiers == modifiers,
            s@.source == Some(
                match url {
                    Some(u) => u@,
                    None => content@,
                },
            ),
    {
        let source_content = match url {
            Some(u) => u,
            None => SourceContent::from_str(content.as_str()),
        };
        Span { content, modifiers, source_content: Some(source_content) }
    }

    /// Create a span with the given source content.
    pub fn source_link(content: String, modifiers: Modifier, source_content: SourceContent) -> (s:
        Span)
        ensures
            s@.content == content@,
            s@.modifiers == modifiers,
            s@.source == Some(source_content@),
    {
        Span { content, modifiers, source_content: Some(source_content) }
    }

    /// A span holding `content` and no modifier.
    pub fn from_string(content: String) -> (s: Span)
        ensures
            s@ == plain(content@, Modifier { bits: 0 }),
    {
        Span { content, modifiers: Modifier::empty(), source_content: None }
    }

    /// The spans of an inline link: brackets, description and parentheses as parts of the
    /// link, and the URL as a link URL with itself as source content.
    pub fn test_link(description: &str, url: &str) -> (v: Vec<Span>)
        ensures
            spans_view(v@) == seq![
                plain("["@, Modifier { bits: Modifier::LINK }),
                plain(description@, Modifier { bits: Modifier::LINK }),
                plain("]"@, Modifier { bits: Modifier::LINK }),
                plain("("@, Modifier { bits: Modifier::LINK }),
                SpanView { content: url@, modifiers: Modifier { bits: Modifier::LINK | Modifier::LINK_URL }, source: Some(url@) },
                plain(")"@, Modifier { bits: Modifier::LINK }),
            ],
    {
        let mut v: Vec<Span> = Vec::new();
        v.push(Span::new("[".to_owned(), Modifier::new(Modifier::LINK)));
        v.push(Span::new(description.to_owned(), Modifier::new(Modifier::LINK)));
        v.push(Span::new("]".to_owned(), Modifier::new(Modifier::LINK)));
        v.push(Span::new("(".to_owned(), Modifier::new(Modifier::LINK)));
        v.push(Span::source_link(url.to_owned(), Modifier::new(Modifier::LINK | Modifier::LINK_URL), SourceContent::from_str(url)));
        v.push(Span::new(")".to_owned(), Modifier::new(Modifier::LINK)));
        assert(spans_view(v@) =~= seq![v@[0]@, v@[1]@, v@[2]@, v@[3]@, v@[4]@, v@[5]@]);
        v
    }

    /// A copy of this span.
    pub fn copy(&self) -> (s: Span)
        ensures
            s@ == self@,
    {
        Span {
            content: self.content.clone(),
            modifiers: self.modifiers,
            source_content: copy_source(&self.source_content),
        }
    }
}

pub proof fn lemma_spans_view_push(s: Seq<Span>, x: Span)
    ensures
        spans_view(s.push(x)) == spans_view(s).push(x@),
{
    assert(spans_view(s.push(x)) =~= spans_view(s).push(x@));
}

pub proof fn lemma_spans_view_add(s: Seq<Span>, t: Seq<Span>)
    ensures
        spans_view(s + t) == spans_view(s) + spans_view(t),
{
    assert(spans_view(s + t) =~= spans_view(s) + spans_view(t));
}


/// A copy of a slice of spans.
pub fn copy_spans(v: &Vec<Span>) -> (r: Vec<Span>)
    ensures
        spans_view(r@) == spans_view(v@),
{
    let mut r: Vec<Span> = Vec::new();
    for i in 0..v.len()
        invariant
            spans_view(r@) == spans_view(v@).take(i as int),
    {
        let ghost old_r = r@;
        r.push(v[i].copy());
        proof {
            lemma_spans_view_push(old_r, r@.last());
            assert(spans_view(v@).take(i + 1) =~= spans_view(v@).take(i as int).push(v@[i as int]@));
        }
    }
    assert(spans_view(v@).take(v@.len() as int) == spans_view(v@));
    r
}

} // verus!
