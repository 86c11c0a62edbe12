//! From markdown sections to the lines of a document: each section's lines, and the blank
//! lines between sections.
use vstd::prelude::*;

use crate::lines::{
    Line, LineKind, LineKindView, LineView, MdLineContainer, ListMarker as LineMarker, lines_view,
    lemma_lines_view_push, lemma_lines_view_add, prefix_spans, nesting_to_prefix_spans,
    spans_width, spans_columns, marker_width, apply_decorators_spec, apply_decorators,
    wrapped_to_lines_spec, wrapped_to_lines, code_block_spec, code_block_to_lines,
    convert_nesting_spec, convert_nesting,
};
use crate::mapper::Symbols;
use crate::markdown::{MdContent, MdContentView, MdSection, MdSectionView, MdContainer, MdContainerView, nesting_view, sections_view};
use crate::modifier::Modifier;
use crate::span::{Span, SpanView, spans_view, plain, lemma_spans_view_push};
use crate::table::{table_spec, table_to_lines, cells_view, rows_view};
use crate::text::{repeat_seq, repeat_str};
use crate::width::{display_width, str_width};
use crate::wrap::{wrap_md_spans_spec, wrap_md_spans};

verus! {

/// The kind of a section of output lines.
#[derive(Debug, Clone, Copy, PartialEq, Eq, Structural)]
pub enum SectionKind {
    Paragraph,
    Header,
    CodeBlock,
    HorizontalRule,
    Table,
}

impl Default for SectionKind {
    fn default() -> (k: SectionKind)
        ensures
            k == SectionKind::Paragraph,
    {
        SectionKind::Paragraph
    }
}

/// The columns that the prefix of a container takes: the blockquote bar, or the width of
/// the list marker (also when it shows as indentation).
pub open spec fn container_width(c: MdLineContainer, sym: Symbols) -> usize {
    match c {
        MdLineContainer::Blockquote => display_width(sym.blockquote_bar@),
        MdLineContainer::ListItem { marker, .. } => marker_width(marker, sym),
    }
}

/// The (saturating) sum of the prefix widths of a nesting.
pub open spec fn nesting_width(n: Seq<MdLineContainer>, sym: Symbols) -> usize
    decreases n.len(),
{
    if n.len() == 0 {
        0
    } else {
        nesting_width(n.drop_last(), sym).saturating_add(container_width(n.last(), sym))
    }
}

/// A blank line.
pub open spec fn blank_line() -> LineView {
    LineView { spans: Seq::empty(), kind: LineKindView::Blank }
}

/// The lines of a section's content with the given line nesting: an empty paragraph is a
/// blank line; a paragraph is decorated, wrapped to the width left by its prefix, and turned
/// into lines; a header is one line; a horizontal rule fills the width left by the prefix.
pub open spec fn section_lines(width: u16, content: MdContentView, nesting: Seq<MdLineContainer>, sym: Symbols) -> Seq<LineView> {
    match content {
        MdContentView::Paragraph { spans, .. } => if spans.len() == 0 {
            seq![blank_line()]
        } else {
            let decorated = apply_decorators_spec(spans, sym);
            let wrapped = wrap_md_spans_spec(width, decorated, nesting_width(nesting, sym), sym.hide_urls);
            wrapped_to_lines_spec(wrapped, nesting, sym, wrapped.len() as int)
        },
        MdContentView::Header { tier, text } => seq![LineView {
            spans: prefix_spans(nesting, sym) + seq![plain(text, Modifier { bits: 0 })],
            kind: LineKindView::Header(tier),
        }],
        MdContentView::CodeBlock { language, code } => code_block_spec(width, language, code, nesting, sym),
        MdContentView::HorizontalRule => {
            let prefix = prefix_spans(nesting, sym);
            let avail = (width as usize).saturating_sub(spans_width(prefix));
            seq![LineView {
                spans: prefix + seq![plain(repeat_seq(sym.horizontal_rule_char@, avail as nat), Modifier { bits: Modifier::HORIZONTAL_RULE })],
                kind: LineKindView::HorizontalRule,
            }]
        },
        MdContentView::Table { header, rows, alignments } => table_spec(width, header, rows, alignments, nesting, sym),
    }
}

/// The line nesting of a section.
pub open spec fn section_nesting(s: MdSectionView) -> Seq<MdLineContainer> {
    convert_nesting_spec(s.nesting, s.is_list_continuation, s.nesting.len() as int)
}

/// The prefix width of a nesting (see [`nesting_width`]).
fn nesting_columns(n: &Vec<MdLineContainer>, sym: &Symbols) -> (w: usize)
    ensures
        w == nesting_width(n@, *sym),
{
    let mut w: usize = 0;
    for i in 0..n.len()
        invariant
            w == nesting_width(n@.take(i as int), *sym),
    {
        assert(n@.take(i + 1).drop_last() =~= n@.take(i as int));
        let c = match n[i] {
            MdLineContainer::Blockquote => str_width(sym.blockquote_bar.as_str()),
            MdLineContainer::ListItem { marker, .. } => marker.width(sym),
        };
        w = w.saturating_add(c);
    }
    assert(n@.take(n@.len() as int) =~= n@);
    w
}

/// Convert a markdown section to output lines (see [`section_lines`]). Decorators are applied
/// before wrapping, so that their widths count.
pub fn section_to_lines(width: u16, section: &MdSection, sym: &Symbols) -> (r: Vec<Line>)
    ensures
        lines_view(r@) == section_lines(width, section@.content, section_nesting(section@), *sym),
{
    let nesting = convert_nesting(&section.nesting, section.is_list_continuation);
    match &section.content {
        MdContent::Paragraph(p) => {
            if p.is_empty() {
                let mut r: Vec<Line> = Vec::new();
                let l = Line { spans: Vec::new(), kind: LineKind::Blank };
                r.push(l);
                assert(spans_view(l.spans@) =~= Seq::<SpanView>::empty());
                assert(lines_view(r@) =~= seq![blank_line()]);
                r
            } else {
                let decorated = apply_decorators(&p.spans, sym);
                let prefix_width = nesting_columns(&nesting, sym);
                let wrapped = wrap_md_spans(width, decorated, prefix_width, sym.hide_urls);
                let ghost wv = crate::wrap::wrapped_view(wrapped@);
                assert(wv.len() == wrapped@.len());
                let r = wrapped_to_lines(wrapped, &nesting, sym);
                assert(lines_view(r@) == section_lines(width, section@.content, section_nesting(section@), *sym));
                r
            }
        },
        MdContent::Header { tier, text } => {
            let mut spans = nesting_to_prefix_spans(&nesting, sym);
            let ghost s0 = spans@;
            let t = Span::from_string(text.clone());
            spans.push(t);
            proof { lemma_spans_view_push(s0, t); }
            let l = Line { spans, kind: LineKind::Header(*tier) };
            assert(spans_view(l.spans@) =~= prefix_spans(nesting@, *sym) + seq![plain(text@, Modifier { bits: 0 })]);
            let mut r: Vec<Line> = Vec::new();
            r.push(l);
            assert(lines_view(r@) =~= seq![l@]);
            r
        },
        MdContent::CodeBlock { language, code } => code_block_to_lines(width, language, code, &nesting, sym),
        MdContent::HorizontalRule => {
            let mut spans = nesting_to_prefix_spans(&nesting, sym);
            let prefix_width = spans_columns(&spans);
            let available = (width as usize).saturating_sub(prefix_width);
            let ghost s0 = spans@;
            let rule = Span::new(repeat_str(sym.horizontal_rule_char.as_str(), available), Modifier::new(Modifier::HORIZONTAL_RULE));
            spans.push(rule);
            proof { lemma_spans_view_push(s0, rule); }
            let l = Line { spans, kind: LineKind::HorizontalRule };
            assert(spans_view(l.spans@) =~= prefix_spans(nesting@, *sym) + seq![plain(repeat_seq(sym.horizontal_rule_char@, available as nat), Modifier { bits: Modifier::HORIZONTAL_RULE })]);
            let mut r: Vec<Line> = Vec::new();
            r.push(l);
            assert(lines_view(r@) =~= seq![l@]);
            r
        },
        MdContent::Table { header, rows, alignments } => table_to_lines(width, header, rows, alignments, &nesting, sym),
    }
}


/// The two containers are of the same kind (list, list item or blockquote).
pub open spec fn same_kind(a: MdContainerView, b: MdContainerView) -> bool {
    ||| (a is List && b is List)
    ||| (a is ListItem && b is ListItem)
    ||| (a is Blockquote && b is Blockquote)
}

/// `shorter` is a proper, non-empty prefix of `longer` by kinds of containers.
pub open spec fn is_kind_prefix(shorter: Seq<MdContainerView>, longer: Seq<MdContainerView>) -> bool {
    &&& shorter.len() > 0
    &&& shorter.len() < longer.len()
    &&& forall|i: int| 0 <= i < shorter.len() ==> same_kind(#[trigger] shorter[i], longer[i])
}

/// The number of lists in a nesting.
pub open spec fn list_depth(n: Seq<MdContainerView>) -> nat
    decreases n.len(),
{
    if n.len() == 0 {
        0
    } else {
        list_depth(n.drop_last()) + if n.last() is List { 1nat } else { 0nat }
    }
}

/// The nesting is inside a list item.
pub open spec fn in_list_item(n: Seq<MdContainerView>) -> bool {
    exists|i: int| 0 <= i < n.len() && #[trigger] n[i] is ListItem
}

/// The outermost list of a nesting, if any.
pub open spec fn first_list(n: Seq<MdContainerView>) -> Option<MdContainerView>
    decreases n.len(),
{
    if n.len() == 0 {
        None
    } else if n[0] is List {
        Some(n[0])
    } else {
        first_list(n.drop_first())
    }
}

/// What the spacing between sections depends on: whether the previous section wants a blank
/// line after it (all but headers), its nesting, whether it was a blank line, and whether it
/// was in a list item.
pub struct Spacing {
    pub needs_blank: bool,
    pub prev_nesting: Seq<MdContainerView>,
    pub prev_was_blank: bool,
    pub prev_in_list: bool,
}

/// Whether a blank line goes before a section with nesting `n`: after a section that wants
/// one, unless either is a blank line, the two are in the same list (a continuation
/// paragraph still gets one), or the nesting only deepens or shallows (except when leaving
/// nested lists for another top-level list).
pub open spec fn emits_blank(sp: Spacing, n: Seq<MdContainerView>, is_blank: bool, is_continuation: bool) -> bool {
    let prev = sp.prev_nesting;
    let in_list = in_list_item(n);
    let nesting_change = is_kind_prefix(prev, n) || is_kind_prefix(n, prev);
    let curr_depth = list_depth(n);
    let prev_depth = list_depth(prev);
    let same_top_level_list = in_list && sp.prev_in_list && curr_depth == 1 && prev_depth == 1
        && first_list(n) == first_list(prev);
    let same_nested_context = in_list && sp.prev_in_list && curr_depth > 1 && prev_depth > 1;
    let same_list_context = same_top_level_list || same_nested_context;
    let exiting_to_new_top_level = nesting_change && curr_depth == 1 && prev_depth > 1
        && match first_list(n) {
            None => false,
            Some(l) => !prev.contains(l),
        };
    &&& sp.needs_blank
    &&& (!same_list_context || is_continuation)
    &&& !is_blank
    &&& !sp.prev_was_blank
    &&& (!nesting_change || exiting_to_new_top_level)
}

/// The spacing after a section.
pub open spec fn next_spacing(s: MdSectionView) -> Spacing {
    Spacing {
        needs_blank: !(s.content is Header),
        prev_nesting: s.nesting,
        prev_was_blank: s.content.is_blank_line(),
        prev_in_list: in_list_item(s.nesting),
    }
}

/// The spacing before the first section.
pub open spec fn initial_spacing() -> Spacing {
    Spacing { needs_blank: false, prev_nesting: Seq::empty(), prev_was_blank: false, prev_in_list: false }
}

/// The blank line between two sections: there is none after a header, none next to a blank
/// line and none before the first section; two sections with the same nesting outside any
/// list item (two top-level paragraphs, two paragraphs of one blockquote) always get one.
pub proof fn blank_line_between_sections(a: MdSectionView, b: MdSectionView)
    ensures
        emits_blank(next_spacing(a), b.nesting, b.content.is_blank_line(), b.is_list_continuation)
            ==> !(a.content is Header) && !a.content.is_blank_line() && !b.content.is_blank_line(),
        !(a.content is Header) && !a.content.is_blank_line() && !b.content.is_blank_line()
            && a.nesting == b.nesting && !in_list_item(b.nesting)
            ==> emits_blank(next_spacing(a), b.nesting, b.content.is_blank_line(), b.is_list_continuation),
        !emits_blank(initial_spacing(), b.nesting, b.content.is_blank_line(), b.is_list_continuation),
{
}

/// The lines of the first `k` sections, and the spacing after them.
pub open spec fn document_fold(width: u16, sections: Seq<MdSectionView>, sym: Symbols, k: int) -> (Seq<LineView>, Spacing)
    decreases k,
{
    if k <= 0 {
        (Seq::empty(), initial_spacing())
    } else {
        let (prev, sp) = document_fold(width, sections, sym, k - 1);
        let s = sections[k - 1];
        let blank = if emits_blank(sp, s.nesting, s.content.is_blank_line(), s.is_list_continuation) {
            seq![blank_line()]
        } else {
            Seq::<LineView>::empty()
        };
        (prev + blank + section_lines(width, s.content, section_nesting(s), sym), next_spacing(s))
    }
}

/// The lines of a document made of `sections`.
pub open spec fn document_lines(width: u16, sections: Seq<MdSectionView>, sym: Symbols) -> Seq<LineView> {
    document_fold(width, sections, sym, sections.len() as int).0
}

/// Whether two containers are equal (same kind, and the same marker for lists).
fn same_container(a: &MdContainer, b: &MdContainer) -> (r: bool)
    ensures
        r == (a@ == b@),
{
    match (a, b) {
        (MdContainer::List(x), MdContainer::List(y)) | (MdContainer::ListItem(x), MdContainer::ListItem(y)) => {
            let same_task = match (x.task, y.task) {
                (Some(p), Some(q)) => p == q,
                (None, None) => true,
                _ => false,
            };
            let r = x.original == y.original && x.indent == y.indent && same_task;
            proof {
                if r {
                    assert(x@ == y@);
                }
            }
            r
        },
        (MdContainer::Blockquote(_), MdContainer::Blockquote(_)) => true,
        _ => false,
    }
}

/// The position of the outermost list of a nesting, if any.
fn first_list_index(n: &Vec<MdContainer>) -> (r: Option<usize>)
    ensures
        match r {
            Some(i) => i < n@.len() && first_list(nesting_view(n@)) == Some(n@[i as int]@),
            None => first_list(nesting_view(n@)) is None,
        },
{
    let mut i: usize = 0;
    assert(nesting_view(n@).skip(0) =~= nesting_view(n@));
    while i < n.len()
        invariant
            i <= n@.len(),
            first_list(nesting_view(n@)) == first_list(nesting_view(n@).skip(i as int)),
        decreases n.len() - i,
    {
        proof {
            assert(nesting_view(n@).skip(i as int)[0] == n@[i as int]@);
            assert(nesting_view(n@).skip(i as int).drop_first() =~= nesting_view(n@).skip(i + 1));
        }
        if let MdContainer::List(_) = &n[i] {
            return Some(i);
        }
        i = i + 1;
    }
    assert(nesting_view(n@).skip(i as int) =~= Seq::<MdContainerView>::empty());
    None
}

/// Whether `n` holds a container equal to `c`.
fn contains_container(n: &Vec<MdContainer>, c: &MdContainer) -> (r: bool)
    ensures
        r == nesting_view(n@).contains(c@),
{
    for i in 0..n.len()
        invariant
            forall|j: int| 0 <= j < i ==> n@[j]@ != c@,
    {
        if same_container(&n[i], c) {
            assert(nesting_view(n@)[i as int] == c@);
            return true;
        }
    }
    proof {
        if nesting_view(n@).contains(c@) {
            let j = choose|j: int| 0 <= j < nesting_view(n@).len() && nesting_view(n@)[j] == c@;
            assert(n@[j]@ == c@);
        }
    }
    false
}

/// The number of lists in a nesting (see [`list_depth`]).
fn list_depth_exec(n: &Vec<MdContainer>) -> (d: usize)
    ensures
        d == list_depth(nesting_view(n@)),
{
    let mut d: usize = 0;
    for i in 0..n.len()
        invariant
            d == list_depth(nesting_view(n@).take(i as int)),
            d <= i,
    {
        proof {
            assert(nesting_view(n@).take(i + 1).drop_last() =~= nesting_view(n@).take(i as int));
            assert(nesting_view(n@).take(i + 1).last() == n@[i as int]@);
        }
        if let MdContainer::List(_) = &n[i] {
            d = d + 1;
        }
    }
    assert(nesting_view(n@).take(n@.len() as int) =~= nesting_view(n@));
    d
}

/// Whether the nesting is inside a list item (see [`in_list_item`]).
fn in_list_item_exec(n: &Vec<MdContainer>) -> (b: bool)
    ensures
        b == in_list_item(nesting_view(n@)),
{
    for i in 0..n.len()
        invariant
            forall|j: int| 0 <= j < i ==> !(nesting_view(n@)[j] is ListItem),
    {
        if let MdContainer::ListItem(_) = &n[i] {
            assert(nesting_view(n@)[i as int] is ListItem);
            return true;
        }
    }
    false
}

/// Whether `shorter` is a proper, non-empty prefix of `longer` by kinds (see
/// [`is_kind_prefix`]).
fn kind_prefix(shorter: &Vec<MdContainer>, longer: &Vec<MdContainer>) -> (b: bool)
    ensures
        b == is_kind_prefix(nesting_view(shorter@), nesting_view(longer@)),
{
    if shorter.len() == 0 || shorter.len() >= longer.len() {
        return false;
    }
    for i in 0..shorter.len()
        invariant
            shorter@.len() < longer@.len(),
            forall|j: int| 0 <= j < i ==> same_kind(#[trigger] nesting_view(shorter@)[j], nesting_view(longer@)[j]),
    {
        let same = match (&shorter[i], &longer[i]) {
            (MdContainer::List(_), MdContainer::List(_)) => true,
            (MdContainer::ListItem(_), MdContainer::ListItem(_)) => true,
            (MdContainer::Blockquote(_), MdContainer::Blockquote(_)) => true,
            _ => false,
        };
        if !same {
            assert(!same_kind(nesting_view(shorter@)[i as int], nesting_view(longer@)[i as int]));
            return false;
        }
    }
    true
}

/// The spacing state while the sections of a document are turned into lines.
pub struct SectionSpacing {
    pub needs_blank: bool,
    pub prev_nesting: Vec<MdContainer>,
    pub prev_was_blank: bool,
    pub prev_in_list: bool,
}

impl View for SectionSpacing {
    type V = Spacing;

    open spec fn view(&self) -> Spacing {
        Spacing {
            needs_blank: self.needs_blank,
            prev_nesting: nesting_view(self.prev_nesting@),
            prev_was_blank: self.prev_was_blank,
            prev_in_list: self.prev_in_list,
        }
    }
}

/// A copy of a nesting.
fn copy_nesting(n: &Vec<MdContainer>) -> (r: Vec<MdContainer>)
    ensures
        nesting_view(r@) == nesting_view(n@),
{
    let mut r: Vec<MdContainer> = Vec::new();
    for i in 0..n.len()
        invariant
            r@.len() == i,
            nesting_view(r@) == nesting_view(n@).take(i as int),
    {
        let c = n[i].copy();
        let ghost r0 = r@;
        r.push(c);
        assert(r@ =~= r0.push(c));
        assert(nesting_view(r@)[i as int] == c@);
        assert(nesting_view(r@) =~= nesting_view(n@).take(i + 1));
    }
    assert(nesting_view(n@).take(n@.len() as int) =~= nesting_view(n@));
    r
}

impl SectionSpacing {
    /// The spacing before the first section.
    pub fn new() -> (s: SectionSpacing)
        ensures
            s@ == initial_spacing(),
    {
        let s = SectionSpacing { needs_blank: false, prev_nesting: Vec::new(), prev_was_blank: false, prev_in_list: false };
        assert(nesting_view(s.prev_nesting@) =~= Seq::<MdContainerView>::empty());
        s
    }

    /// Whether a blank line goes before `section` (see [`emits_blank`]), and the spacing after
    /// it (see [`next_spacing`]).
    pub fn step(&mut self, section: &MdSection) -> (blank: bool)
        ensures
            blank == emits_blank(old(self)@, section@.nesting, section@.content.is_blank_line(), section.is_list_continuation),
            final(self)@ == next_spacing(section@),
    {
        let nesting = &section.nesting;
        let in_list = in_list_item_exec(nesting);
        let is_blank_line = section.content.is_blank();
        let nesting_change = kind_prefix(&self.prev_nesting, nesting) || kind_prefix(nesting, &self.prev_nesting);
        let curr_list_depth = list_depth_exec(nesting);
        let prev_list_depth = list_depth_exec(&self.prev_nesting);
        let same_top_level_list = if in_list && self.prev_in_list && curr_list_depth == 1 && prev_list_depth == 1 {
            let curr = first_list_index(nesting);
            let prev = first_list_index(&self.prev_nesting);
            match (curr, prev) {
                (Some(a), Some(b)) => same_container(&nesting[a], &self.prev_nesting[b]),
                (None, None) => true,
                _ => false,
            }
        } else {
            false
        };
        let same_nested_context = in_list && self.prev_in_list && curr_list_depth > 1 && prev_list_depth > 1;
        let same_list_context = same_top_level_list || same_nested_context;
        let exiting_to_new_top_level = nesting_change && curr_list_depth == 1 && prev_list_depth > 1 && match first_list_index(nesting) {
            None => false,
            Some(a) => !contains_container(&self.prev_nesting, &nesting[a]),
        };
        let should_emit_blank = self.needs_blank && (!same_list_context || section.is_list_continuation)
            && !is_blank_line && !self.prev_was_blank && (!nesting_change || exiting_to_new_top_level);
        self.needs_blank = match &section.content {
            MdContent::Header { .. } => false,
            _ => true,
        };
        self.prev_nesting = copy_nesting(nesting);
        self.prev_was_blank = is_blank_line;
        self.prev_in_list = in_list;
        should_emit_blank
    }
}

/// Turn the sections of a document into its lines (see [`document_lines`]): each section's
/// lines, with blank lines between sections where [`emits_blank`] says so.
pub fn sections_to_lines(width: u16, sections: &Vec<MdSection>, sym: &Symbols) -> (r: Vec<Line>)
    ensures
        lines_view(r@) == document_lines(width, sections_view(sections@), *sym),
{
    let mut lines: Vec<Line> = Vec::new();
    let mut spacing = SectionSpacing::new();
    for k in 0..sections.len()
        invariant
            (lines_view(lines@), spacing@) == document_fold(width, sections_view(sections@), *sym, k as int),
    {
        let section = &sections[k];
        proof { assert(sections_view(sections@)[k as int] == section@); }
        let blank = spacing.step(section);
        if blank {
            let l = Line { spans: Vec::new(), kind: LineKind::Blank };
            assert(spans_view(l.spans@) =~= Seq::<SpanView>::empty());
            let ghost o = lines@;
            lines.push(l);
            proof { lemma_lines_view_push(o, l); }
        }
        let ghost o2 = lines@;
        let mut more = section_to_lines(width, section, sym);
        let ghost m = more@;
        lines.append(&mut more);
        proof {
            assert(lines@ =~= o2 + m);
            lemma_lines_view_add(o2, m);
        }
    }
    lines
}

} // verus!
