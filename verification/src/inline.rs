//! Inline markdown: the spans of a paragraph or a table cell, from the nodes of its inline
//! syntax tree.
use vstd::prelude::*;

use crate::modifier::Modifier;
use crate::span::{Span, SpanView, SourceContent, spans_view, plain, lemma_spans_view_push, lemma_spans_view_add};
use crate::syntax::{TextNode, TextNodeView, nodes_view};
use crate::text::{trim_seq, trim_inplace, string_of_range, string_of, chars_of, is_ws};
use crate::markdown::{
    is_punct_kind, MdParagraph, MdContent, MdContentView, split_newlines_spec, split_newlines,
    detect_urls_spec, detect_bare_urls, strip_bq_spec, strip_blockquote_prefix, is_marker_only,
    is_blockquote_marker_only,
};
use crate::syntax::{inline_syntax, parse_inline_syntax, text_nodes, to_text_nodes};
use crate::wrap::with_content;

verus! {

/// `s` holds `w` as a contiguous part.
pub open spec fn has_part(s: Seq<char>, w: Seq<char>) -> bool {
    exists|i: int| 0 <= i && i + w.len() <= s.len() && #[trigger] s.subrange(i, i + w.len()) == w
}

/// Whether `s` holds `w` as a contiguous part (see [`has_part`]).
pub fn contains_part(s: &Vec<char>, w: &Vec<char>) -> (b: bool)
    ensures
        b == has_part(s@, w@),
{
    if w.len() > s.len() {
        return false;
    }
    let mut i: usize = 0;
    while i <= s.len() - w.len()
        invariant
            w@.len() <= s@.len(),
            i <= s@.len() - w@.len() + 1,
            forall|k: int| 0 <= k < i ==> #[trigger] s@.subrange(k, k + w@.len()) != w@,
        decreases s.len() - i,
    {
        let mut j: usize = 0;
        while j < w.len() && s[i + j] == w[j]
            invariant
                i + w@.len() <= s@.len(),
                i + w.len() <= s.len(),
                j <= w@.len(),
                forall|m: int| 0 <= m < j ==> s@[i + m] == w@[m],
            decreases w.len() - j,
        {
            j = j + 1;
        }
        if j == w.len() {
            assert(s@.subrange(i as int, i + w@.len()) =~= w@);
            return true;
        }
        assert(s@.subrange(i as int, i + w@.len())[j as int] != w@[j as int]);
        i = i + 1;
    }
    proof {
        assert forall|k: int| 0 <= k && k + w@.len() <= s@.len() implies #[trigger] s@.subrange(k, k + w@.len()) != w@ by {
            assert(k < i);
        }
    }
    false
}

/// Whether a string equals a literal.
pub fn is_kind(kind: &String, lit: &str) -> (b: bool)
    ensures
        b == (kind@ == lit@),
{
    *kind == lit.to_owned()
}

/// The characters `src[a..b]`, nothing when the range is not within `src`.
pub open spec fn slice(src: Seq<char>, a: int, b: int) -> Seq<char> {
    if 0 <= a <= b <= src.len() { src.subrange(a, b) } else { Seq::empty() }
}

/// A `String` of `src[a..b]` (see [`slice`]).
pub fn slice_string(src: &Vec<char>, a: usize, b: usize) -> (s: String)
    ensures
        s@ == slice(src@, a as int, b as int),
{
    if a <= b && b <= src.len() {
        string_of_range(src, a, b)
    } else {
        String::new()
    }
}

/// `s` without the backticks at its start.
pub open spec fn strip_ticks_start(s: Seq<char>) -> Seq<char>
    decreases s.len(),
{
    if s.len() > 0 && s[0] == '`' { strip_ticks_start(s.drop_first()) } else { s }
}

/// `s` without the backticks at its end.
pub open spec fn strip_ticks_end(s: Seq<char>) -> Seq<char>
    decreases s.len(),
{
    if s.len() > 0 && s.last() == '`' { strip_ticks_end(s.drop_last()) } else { s }
}

/// The text of a code span: without its backtick delimiters, and trimmed.
pub open spec fn code_text(s: Seq<char>) -> Seq<char> {
    trim_seq(strip_ticks_end(strip_ticks_start(s)))
}

/// The text of a code span (see [`code_text`]).
fn code_text_exec(src: &Vec<char>, a: usize, b: usize) -> (s: String)
    ensures
        s@ == code_text(slice(src@, a as int, b as int)),
{
    let ghost full = slice(src@, a as int, b as int);
    if !(a <= b && b <= src.len()) {
        let mut s = String::new();
        proof {
            assert(strip_ticks_start(Seq::<char>::empty()) == Seq::<char>::empty());
            assert(strip_ticks_end(Seq::<char>::empty()) == Seq::<char>::empty());
        }
        trim_inplace(&mut s);
        return s;
    }
    let mut i = a;
    assert(src@.subrange(a as int, b as int) == full);
    while i < b && src[i] == '`'
        invariant
            a <= i <= b <= src@.len(),
            full == src@.subrange(a as int, b as int),
            strip_ticks_start(full) == strip_ticks_start(src@.subrange(i as int, b as int)),
        decreases b - i,
    {
        assert(src@.subrange(i as int, b as int).drop_first() =~= src@.subrange(i + 1, b as int));
        i = i + 1;
    }
    let mut j = b;
    assert(strip_ticks_start(full) == src@.subrange(i as int, b as int));
    while j > i && src[j - 1] == '`'
        invariant
            a <= i <= j <= b <= src@.len(),
            strip_ticks_end(strip_ticks_start(full)) == strip_ticks_end(src@.subrange(i as int, j as int)),
        decreases j - i,
    {
        assert(src@.subrange(i as int, j as int).drop_last() =~= src@.subrange(i as int, j - 1));
        j = j - 1;
    }
    let mut s = string_of_range(src, i, j);
    trim_inplace(&mut s);
    s
}

/// The modifier that a node of kind `k` adds to its content. The description of an image is
/// a link description, so that images are found back in the lines.
pub open spec fn kind_modifier(k: Seq<char>) -> Modifier {
    if k == "emphasis"@ {
        Modifier { bits: Modifier::EMPHASIS }
    } else if k == "strong_emphasis"@ {
        Modifier { bits: Modifier::STRONG_EMPHASIS }
    } else if k == "strikethrough"@ {
        Modifier { bits: Modifier::STRIKETHROUGH }
    } else if k == "["@ || k == "]"@ {
        Modifier { bits: Modifier::LINK_DESCRIPTION_WRAPPER }
    } else if k == "("@ || k == ")"@ {
        Modifier { bits: Modifier::LINK_URL_WRAPPER }
    } else if k == "link_text"@ || k == "image_description"@ {
        Modifier { bits: Modifier::LINK_DESCRIPTION }
    } else if k == "inline_link"@ {
        Modifier { bits: Modifier::LINK }
    } else if k == "image"@ {
        Modifier { bits: Modifier::IMAGE }
    } else {
        Modifier { bits: 0 }
    }
}

/// The modifier that a node of kind `k` adds (see [`kind_modifier`]).
fn kind_modifier_exec(k: &String) -> (m: Modifier)
    ensures
        m == kind_modifier(k@),
{
    if is_kind(k, "emphasis") {
        Modifier::new(Modifier::EMPHASIS)
    } else if is_kind(k, "strong_emphasis") {
        Modifier::new(Modifier::STRONG_EMPHASIS)
    } else if is_kind(k, "strikethrough") {
        Modifier::new(Modifier::STRIKETHROUGH)
    } else if is_kind(k, "[") || is_kind(k, "]") {
        Modifier::new(Modifier::LINK_DESCRIPTION_WRAPPER)
    } else if is_kind(k, "(") || is_kind(k, ")") {
        Modifier::new(Modifier::LINK_URL_WRAPPER)
    } else if is_kind(k, "link_text") || is_kind(k, "image_description") {
        Modifier::new(Modifier::LINK_DESCRIPTION)
    } else if is_kind(k, "inline_link") {
        Modifier::new(Modifier::LINK)
    } else if is_kind(k, "image") {
        Modifier::new(Modifier::IMAGE)
    } else {
        Modifier::empty()
    }
}

/// `m` with the flags `bits` added.
pub open spec fn with_flags(m: Modifier, bits: u32) -> Modifier {
    Modifier { bits: m.bits | bits }
}

/// The position of the first link description span of `s`, or -1.
pub open spec fn first_desc(s: Seq<SpanView>) -> int
    decreases s.len(),
{
    if s.len() == 0 {
        -1
    } else {
        let r = first_desc(s.drop_last());
        if r >= 0 { r } else if s.last().modifiers.has(Modifier::LINK_DESCRIPTION) { s.len() - 1 } else { -1 }
    }
}

/// `s` with the source content of its first link description span set to `url`.
pub open spec fn set_desc_source(s: Seq<SpanView>, url: Seq<char>) -> Seq<SpanView> {
    let i = first_desc(s);
    if i >= 0 {
        s.update(i, SpanView { content: s[i].content, modifiers: s[i].modifiers, source: Some(url) })
    } else {
        s
    }
}

/// The node has children: in preorder, the next node is one level deeper.
pub open spec fn has_children(ns: Seq<TextNodeView>, i: int) -> bool {
    i + 1 < ns.len() && ns[i + 1].depth > ns[i].depth
}

/// The spans of inline node `i` under the modifiers `extra`, and the URL of a link
/// destination (which its caller gives to the link description).
///
/// Delimiter nodes give nothing. A code span gives its trimmed text without backticks; a
/// line break gives an empty span that starts a source line; a link destination gives its
/// URL as a link URL with itself as source. Other nodes add their modifier (emphasis, link
/// parts...) and, when they start at a line feed, start a source line; a leaf gives its text,
/// and a node with children gives the text between and after its children and the spans of
/// the children that are not punctuation.
pub open spec fn inline_spans(ns: Seq<TextNodeView>, src: Seq<char>, i: int, extra: Modifier) -> (Seq<SpanView>, Option<Seq<char>>)
    decreases ns.len() - i, ns.len() + 1,
{
    if i < 0 || i >= ns.len() {
        (Seq::empty(), None)
    } else {
        let n = ns[i];
        let k = n.kind;
        if has_part(k, "delimiter"@) {
            (Seq::empty(), None)
        } else if k == "code_span"@ {
            (seq![plain(code_text(slice(src, n.start as int, n.end as int)), with_flags(extra, Modifier::CODE))], None)
        } else if k == "hard_line_break"@ || k == "soft_break"@ {
            (seq![plain(Seq::empty(), with_flags(extra, Modifier::NEW_LINE))], None)
        } else if k == "link_destination"@ {
            let url = slice(src, n.start as int, n.end as int);
            (seq![SpanView { content: url, modifiers: with_flags(extra, Modifier::LINK_URL), source: Some(url) }], Some(url))
        } else {
            let cur = kind_modifier(k);
            let e1 = with_flags(extra, cur.bits);
            let nl = n.start < src.len() && src[n.start as int] == '\n';
            let e2 = if nl { with_flags(e1, Modifier::NEW_LINE) } else { e1 };
            let p0 = n.start + if nl { 1int } else { 0int };
            if !has_children(ns, i) {
                (seq![plain(slice(src, p0, n.end as int), e2)], None)
            } else {
                let (spans, pos) = inline_children(ns, src, i, cur, e2, i + 1, Seq::empty(), p0);
                (if pos < n.end { spans.push(plain(slice(src, pos, n.end as int), e2)) } else { spans }, None)
            }
        }
    }
}

/// The spans of the children of node `i` from node `j` on, after spans `acc`, with `pos` the
/// position up to which the text has been taken; and the position after the last child.
pub open spec fn inline_children(ns: Seq<TextNodeView>, src: Seq<char>, i: int, cur: Modifier, extra: Modifier, j: int, acc: Seq<SpanView>, pos: int) -> (Seq<SpanView>, int)
    decreases ns.len() - i, ns.len() - j,
{
    if i < 0 || j <= i || j >= ns.len() || ns[j].depth <= ns[i].depth {
        (acc, pos)
    } else if ns[j].depth != ns[i].depth + 1 || is_punct_kind(ns[j].kind, cur) {
        inline_children(ns, src, i, cur, extra, j + 1, acc, pos)
    } else {
        let c = ns[j];
        let gap = c.start > pos;
        let acc1 = if gap { acc.push(plain(slice(src, pos, c.start as int), extra)) } else { acc };
        let ended_nl = gap && c.start <= src.len() && src[c.start - 1] == '\n';
        let e = if ended_nl { with_flags(extra, Modifier::NEW_LINE) } else { extra };
        let (cs, url) = inline_spans(ns, src, j, e);
        let acc2 = match url {
            Some(u) => set_desc_source(acc1, u),
            None => acc1,
        };
        inline_children(ns, src, i, cur, extra, j + 1, acc2 + cs, c.end as int)
    }
}

/// The position of the first link description span, if any (see [`first_desc`]).
fn first_desc_exec(s: &Vec<Span>) -> (r: Option<usize>)
    ensures
        match r {
            Some(i) => i == first_desc(spans_view(s@)) && i < s@.len(),
            None => first_desc(spans_view(s@)) == -1,
        },
{
    for i in 0..s.len()
        invariant
            first_desc(spans_view(s@).take(i as int)) == -1,
    {
        proof {
            assert(spans_view(s@).take(i + 1).drop_last() =~= spans_view(s@).take(i as int));
            assert(spans_view(s@).take(i + 1).last() == s@[i as int]@);
        }
        if s[i].modifiers.contains(Modifier::LINK_DESCRIPTION) {
            proof { lemma_first_desc_prefix(spans_view(s@), i as int + 1); }
            return Some(i);
        }
    }
    assert(spans_view(s@).take(s@.len() as int) =~= spans_view(s@));
    None
}

/// Once a prefix has a link description span, the first one stays where it is.
proof fn lemma_first_desc_prefix(s: Seq<SpanView>, k: int)
    requires
        0 <= k <= s.len(),
        first_desc(s.take(k)) >= 0,
    ensures
        first_desc(s) == first_desc(s.take(k)),
    decreases s.len() - k,
{
    if k < s.len() {
        assert(s.take(k + 1).drop_last() =~= s.take(k));
        lemma_first_desc_prefix(s, k + 1);
    } else {
        assert(s.take(k) =~= s);
    }
}

/// Set the source content of the first link description span (see [`set_desc_source`]).
fn set_desc_source_exec(s: &mut Vec<Span>, url: &String)
    ensures
        spans_view(final(s)@) == set_desc_source(spans_view(old(s)@), url@),
{
    match first_desc_exec(s) {
        Some(i) => {
            let mut d = s[i].copy();
            d.source_content = Some(SourceContent(url.clone()));
            let ghost o = s@;
            s.set(i, d);
            proof {
                assert(spans_view(s@) =~= set_desc_source(spans_view(o), url@));
            }
        },
        None => {},
    }
}

/// The spans of inline node `i` (see [`inline_spans`]).
pub fn inline_node_to_spans(ns: &Vec<TextNode>, src: &Vec<char>, i: usize, extra: Modifier) -> (r: (Vec<Span>, Option<String>))
    ensures
        spans_view(r.0@) == inline_spans(nodes_view(ns@), src@, i as int, extra).0,
        match r.1 {
            Some(u) => inline_spans(nodes_view(ns@), src@, i as int, extra).1 == Some(u@),
            None => inline_spans(nodes_view(ns@), src@, i as int, extra).1 is None,
        },
    decreases ns@.len() - i, ns@.len() + 1,
{
    let ghost nv = nodes_view(ns@);
    let mut spans: Vec<Span> = Vec::new();
    if i >= ns.len() {
        assert(spans_view(spans@) =~= Seq::<SpanView>::empty());
        return (spans, None);
    }
    let n = &ns[i];
    proof { assert(nv[i as int] == n@); }
    let kind_chars = chars_of(n.kind.as_str());
    let delim = chars_of("delimiter");
    if contains_part(&kind_chars, &delim) {
        assert(spans_view(spans@) =~= Seq::<SpanView>::empty());
        return (spans, None);
    }
    if is_kind(&n.kind, "code_span") {
        let t = code_text_exec(src, n.start, n.end);
        let sp = Span::new(t, extra.union(Modifier::CODE));
        spans.push(sp);
        assert(spans_view(spans@) =~= seq![sp@]);
        return (spans, None);
    }
    if is_kind(&n.kind, "hard_line_break") || is_kind(&n.kind, "soft_break") {
        let sp = Span::new(String::new(), extra.union(Modifier::NEW_LINE));
        spans.push(sp);
        assert(spans_view(spans@) =~= seq![sp@]);
        return (spans, None);
    }
    if is_kind(&n.kind, "link_destination") {
        let url = slice_string(src, n.start, n.end);
        let sp = Span::link(url.clone(), extra.union(Modifier::LINK_URL), Some(SourceContent(url.clone())));
        spans.push(sp);
        assert(spans_view(spans@) =~= seq![sp@]);
        return (spans, Some(url));
    }
    let cur = kind_modifier_exec(&n.kind);
    let e1 = extra.union(cur.bits);
    let nl = n.start < src.len() && src[n.start] == '\n';
    let e2 = if nl { e1.union(Modifier::NEW_LINE) } else { e1 };
    let p0: usize = if nl { n.start + 1 } else { n.start };
    let with_children = i + 1 < ns.len() && ns[i + 1].depth > n.depth;
    proof {
        if i + 1 < ns.len() {
            assert(nv[i + 1] == ns@[i + 1]@);
        }
    }
    if !with_children {
        let sp = Span::new(slice_string(src, p0, n.end), e2);
        spans.push(sp);
        assert(spans_view(spans@) =~= seq![sp@]);
        return (spans, None);
    }
    let mut pos: usize = p0;
    let mut j: usize = i + 1;
    let ghost goal = inline_children(nv, src@, i as int, cur, e2, i + 1, Seq::empty(), p0 as int);
    assert(spans_view(spans@) =~= Seq::<SpanView>::empty());
    while j < ns.len() && ns[j].depth > n.depth
        invariant
            nv == nodes_view(ns@),
            i < j <= ns@.len(),
            n@ == nv[i as int],
            goal == inline_children(nv, src@, i as int, cur, e2, j as int, spans_view(spans@), pos as int),
        decreases ns@.len() - j,
    {
        let c = &ns[j];
        proof { assert(nv[j as int] == c@); }
        if c.depth != n.depth + 1 || is_punctuation_kind(&c.kind, cur) {
            j = j + 1;
            continue;
        }
        let gap = c.start > pos;
        let ghost s0 = spans@;
        if gap {
            let g = Span::new(slice_string(src, pos, c.start), e2);
            spans.push(g);
            proof { lemma_spans_view_push(s0, g); }
        }
        let ended_nl = gap && c.start <= src.len() && src[c.start - 1] == '\n';
        let e = if ended_nl { e2.union(Modifier::NEW_LINE) } else { e2 };
        let (mut cs, url) = inline_node_to_spans(ns, src, j, e);
        match &url {
            Some(u) => {
                set_desc_source_exec(&mut spans, u);
            },
            None => {},
        }
        let ghost s1 = spans@;
        let ghost c0 = cs@;
        spans.append(&mut cs);
        proof {
            assert(spans@ =~= s1 + c0);
            lemma_spans_view_add(s1, c0);
        }
        pos = c.end;
        j = j + 1;
    }
    proof {
        assert(inline_children(nv, src@, i as int, cur, e2, j as int, spans_view(spans@), pos as int) == (spans_view(spans@), pos as int));
    }
    if pos < n.end {
        let ghost s2 = spans@;
        let t = Span::new(slice_string(src, pos, n.end), e2);
        spans.push(t);
        proof { lemma_spans_view_push(s2, t); }
    }
    (spans, None)
}

/// Whether a node kind is punctuation to skip under a node with modifier `parent` (see
/// [`is_punct_kind`]).
fn is_punctuation_kind(kind: &String, parent: Modifier) -> (b: bool)
    ensures
        b == is_punct_kind(kind@, parent),
{
    crate::markdown::is_punctuation(kind.as_str(), parent)
}


/// The spans of the root of an inline tree, nothing for an empty tree.
pub open spec fn root_spans(ns: Seq<TextNodeView>, src: Seq<char>) -> Seq<SpanView> {
    if ns.len() > 0 { inline_spans(ns, src, 0, Modifier { bits: 0 }).0 } else { Seq::empty() }
}

/// A span that starts a source line loses up to `depth` blockquote markers.
pub open spec fn strip_markers(v: SpanView, depth: nat) -> SpanView {
    if v.modifiers.has(Modifier::NEW_LINE) { with_content(v, strip_bq_spec(v.content, depth)) } else { v }
}

/// Spans that a paragraph keeps: an empty span only when it is a line break, and a span that
/// starts a source line only when it is more than blockquote markers.
pub open spec fn keeps(v: SpanView) -> bool {
    if v.content.len() == 0 {
        v.modifiers.has(Modifier::NEW_LINE)
    } else if v.modifiers.has(Modifier::NEW_LINE) {
        !is_marker_only(trim_seq(v.content))
    } else {
        true
    }
}

/// The first `n` spans with blockquote markers stripped and the spans not kept left out.
pub open spec fn clean_spans(s: Seq<SpanView>, depth: nat, n: int) -> Seq<SpanView>
    decreases n,
{
    if n <= 0 {
        Seq::empty()
    } else {
        let prev = clean_spans(s, depth, n - 1);
        let c = strip_markers(s[n - 1], depth);
        if keeps(c) { prev.push(c) } else { prev }
    }
}

/// The spans of a paragraph from its inline tree: the tree's spans, split at line feeds, with
/// bare URLs marked, and cleaned of the markers of `depth` enclosing blockquotes.
pub open spec fn paragraph_spans(ns: Seq<TextNodeView>, src: Seq<char>, depth: nat) -> Seq<SpanView> {
    let raw = root_spans(ns, src);
    let split = split_newlines_spec(raw, raw.len() as int);
    let urls = detect_urls_spec(split, split.len() as int);
    clean_spans(urls, depth, urls.len() as int)
}

/// The spans of the root of an inline tree (see [`root_spans`]).
fn root_spans_exec(ns: &Vec<TextNode>, src: &Vec<char>) -> (r: Vec<Span>)
    ensures
        spans_view(r@) == root_spans(nodes_view(ns@), src@),
{
    if ns.len() > 0 {
        let (spans, _) = inline_node_to_spans(ns, src, 0, Modifier::empty());
        spans
    } else {
        let r: Vec<Span> = Vec::new();
        assert(spans_view(r@) =~= Seq::<SpanView>::empty());
        r
    }
}

/// The spans of a paragraph from the nodes of its inline tree (see [`paragraph_spans`]).
pub fn paragraph_spans_exec(ns: &Vec<TextNode>, src: &Vec<char>, depth: usize) -> (r: Vec<Span>)
    ensures
        spans_view(r@) == paragraph_spans(nodes_view(ns@), src@, depth as nat),
{
    let raw = root_spans_exec(ns, src);
    let split = split_newlines(raw);
    let urls = detect_bare_urls(split);
    let mut out: Vec<Span> = Vec::new();
    for k in 0..urls.len()
        invariant
            spans_view(out@) == clean_spans(spans_view(urls@), depth as nat, k as int),
    {
        let mut c = urls[k].copy();
        proof { assert(spans_view(urls@)[k as int] == urls@[k as int]@); }
        if c.modifiers.contains(Modifier::NEW_LINE) {
            c.content = strip_blockquote_prefix(c.content.as_str(), depth);
        }
        let keep = if c.content.as_str().is_empty() {
            c.modifiers.contains(Modifier::NEW_LINE)
        } else if c.modifiers.contains(Modifier::NEW_LINE) {
            let mut t = c.content.clone();
            trim_inplace(&mut t);
            !is_blockquote_marker_only(t.as_str())
        } else {
            true
        };
        if keep {
            let ghost o = out@;
            out.push(c);
            proof { lemma_spans_view_push(o, c); }
        }
    }
    out
}

/// The content of a paragraph of `text`, whose inline tree may be known: none for blank text;
/// without a usable tree, one plain span of the text; else the spans of [`paragraph_spans`],
/// none at all when nothing is kept.
pub open spec fn paragraph_content(text: Seq<char>, tree: Option<Seq<crate::syntax::SyntaxNodeView>>, depth: nat) -> Option<MdContentView> {
    if crate::text::all_ws(text) {
        None
    } else {
        let whole = Some(MdContentView::Paragraph { backing: text, spans: seq![plain(text, Modifier { bits: 0 })] });
        match tree {
            None => whole,
            Some(sn) => match text_nodes(text, sn) {
                None => whole,
                Some(ns) => {
                    let spans = paragraph_spans(ns, text, depth);
                    if spans.len() == 0 { None } else { Some(MdContentView::Paragraph { backing: text, spans }) }
                },
            },
        }
    }
}

impl MdParagraph {
    /// The content of a paragraph of `text` from its inline tree (see
    /// [`paragraph_content`]), inside `depth` blockquotes.
    pub fn from_inline(text: &str, tree: Option<Vec<crate::syntax::SyntaxNode>>, depth: usize) -> (r: Option<MdContent>)
        ensures
            match r {
                Some(c) => paragraph_content(text@, crate::syntax::tree_view(tree), depth as nat) == Some(c@),
                None => paragraph_content(text@, crate::syntax::tree_view(tree), depth as nat) is None,
            },
    {
        if crate::text::is_blank_str(text) {
            return None;
        }
        let chars = chars_of(text);
        let nodes = match &tree {
            Some(v) => to_text_nodes(&chars, v),
            None => None,
        };
        match nodes {
            None => Some(MdContent::Paragraph(MdParagraph::from_str(text))),
            Some(ns) => {
                let spans = paragraph_spans_exec(&ns, &chars, depth);
                if spans.len() == 0 {
                    None
                } else {
                    Some(MdContent::Paragraph(MdParagraph { backing: text.to_owned(), spans }))
                }
            },
        }
    }

    /// The content of a paragraph of `text` inside `depth` blockquotes: its text is parsed
    /// with tree-sitter-md's inline grammar and read as [`paragraph_content`] says.
    pub fn parse_paragraph(text: &str, depth: usize) -> (r: Option<MdContent>)
        ensures
            match r {
                Some(c) => paragraph_content(text@, inline_syntax(text@), depth as nat) == Some(c@),
                None => paragraph_content(text@, inline_syntax(text@), depth as nat) is None,
            },
    {
        let tree = parse_inline_syntax(text);
        proof { assert(crate::syntax::tree_view(tree) == inline_syntax(text@)); }
        MdParagraph::from_inline(text, tree, depth)
    }
}

/// The spans of a table cell whose trimmed text is `text`: none for empty text; without a
/// usable inline tree, one plain span; else the spans of the tree with bare URLs marked.
pub open spec fn cell_content(text: Seq<char>, tree: Option<Seq<crate::syntax::SyntaxNodeView>>) -> Seq<SpanView> {
    if text.len() == 0 {
        Seq::empty()
    } else {
        match tree {
            None => seq![plain(text, Modifier { bits: 0 })],
            Some(sn) => match text_nodes(text, sn) {
                None => seq![plain(text, Modifier { bits: 0 })],
                Some(ns) => {
                    let raw = root_spans(ns, text);
                    detect_urls_spec(raw, raw.len() as int)
                },
            },
        }
    }
}

/// The spans of a table cell from its trimmed text and inline tree (see [`cell_content`]).
pub fn cell_from_inline(text: &str, tree: Option<Vec<crate::syntax::SyntaxNode>>) -> (r: Vec<Span>)
    ensures
        spans_view(r@) == cell_content(text@, crate::syntax::tree_view(tree)),
{
    let chars = chars_of(text);
    if chars.len() == 0 {
        let r: Vec<Span> = Vec::new();
        assert(spans_view(r@) =~= Seq::<SpanView>::empty());
        return r;
    }
    let nodes = match &tree {
        Some(v) => to_text_nodes(&chars, v),
        None => None,
    };
    match nodes {
        None => {
            let mut r: Vec<Span> = Vec::new();
            let sp = Span::new(text.to_owned(), Modifier::empty());
            r.push(sp);
            assert(spans_view(r@) =~= seq![sp@]);
            r
        },
        Some(ns) => detect_bare_urls(root_spans_exec(&ns, &chars)),
    }
}

} // verus!
