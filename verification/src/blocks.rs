//! Block markdown: the sections of a document, from the nodes of its block syntax tree.
use vstd::prelude::*;

use crate::inline::{
    is_kind, slice, slice_string, paragraph_content, cell_content, cell_from_inline,
};
use crate::markdown::{
    MdContent, MdContentView, MdContainer, MdContainerView, MdParagraph, MdSection, MdSectionView,
    ListMarker, ListMarkerView, BlockquoteMarker, TableAlignment, nesting_view, sections_view,
};
use crate::span::{Span, SpanView, spans_view};
use crate::syntax::{
    SyntaxNode, SyntaxNodeView, TextNode, TextNodeView, nodes_view, syntax_view, text_nodes,
    to_text_nodes, block_syntax, inline_syntax, parse_block_syntax, parse_inline_syntax,
};
use crate::table::{cells_view, rows_view};
use crate::text::{trim_seq, trim_inplace, chars_of, text_lines, split_lines, string_of};

verus! {

/// Failed to parse markdown.
#[derive(Debug)]
pub struct MarkdownParseError;

impl MarkdownParseError {
    /// What went wrong, as a message.
    pub fn message(&self) -> (s: &'static str)
        ensures
            s@ == "Failed to parse markdown"@,
    {
        "Failed to parse markdown"
    }
}

/// The children of node `i` among the nodes from `j` on: the nodes one level deeper, up to
/// the end of its subtree.
pub open spec fn children_from(ns: Seq<TextNodeView>, i: int, j: int) -> Seq<int>
    decreases ns.len() - j,
{
    if i < 0 || j <= i || j >= ns.len() || ns[j].depth <= ns[i].depth {
        Seq::empty()
    } else if ns[j].depth == ns[i].depth + 1 {
        seq![j] + children_from(ns, i, j + 1)
    } else {
        children_from(ns, i, j + 1)
    }
}

/// The children of node `i`, in order.
pub open spec fn children(ns: Seq<TextNodeView>, i: int) -> Seq<int> {
    children_from(ns, i, i + 1)
}

/// The children of node `i` (see [`children`]).
pub(crate) fn children_exec(ns: &Vec<TextNode>, i: usize) -> (r: Vec<usize>)
    requires
        i < ns@.len(),
    ensures
        r@.map_values(|k: usize| k as int) == children(nodes_view(ns@), i as int),
        forall|k: int| 0 <= k < r@.len() ==> i < #[trigger] r@[k] < ns@.len(),
{
    let ghost nv = nodes_view(ns@);
    let mut r: Vec<usize> = Vec::new();
    let total = ns.len();
    assert(i < total);
    let mut j = i + 1;
    while j < ns.len() && ns[j].depth > ns[i].depth
        invariant
            nv == nodes_view(ns@),
            i < j <= ns@.len(),
            children(nv, i as int) == r@.map_values(|k: usize| k as int) + children_from(nv, i as int, j as int),
            forall|k: int| 0 <= k < r@.len() ==> i < #[trigger] r@[k] < ns@.len(),
        decreases ns@.len() - j,
    {
        proof {
            assert(nv[j as int] == ns@[j as int]@);
            assert(nv[i as int] == ns@[i as int]@);
        }
        if ns[j].depth == ns[i].depth + 1 {
            let ghost r0 = r@;
            r.push(j);
            proof {
                assert(r@.map_values(|k: usize| k as int) =~= r0.map_values(|k: usize| k as int) + seq![j as int]);
            }
        }
        j = j + 1;
    }
    proof {
        if j < ns@.len() {
            assert(nv[j as int] == ns@[j as int]@);
            assert(nv[i as int] == ns@[i as int]@);
        }
        assert(children_from(nv, i as int, j as int) =~= Seq::<int>::empty());
        assert(children(nv, i as int) =~= r@.map_values(|k: usize| k as int));
    }
    r
}

/// The node's text.
pub open spec fn node_text(ns: Seq<TextNodeView>, src: Seq<char>, i: int) -> Seq<char> {
    slice(src, ns[i].start as int, ns[i].end as int)
}


// ---------------------------------------------------------------------------------------
// Headings

/// The tier of a heading marker kind, 0 for another kind.
pub open spec fn heading_tier(k: Seq<char>) -> u8 {
    if k == "atx_h1_marker"@ { 1 } else if k == "atx_h2_marker"@ { 2 } else if k == "atx_h3_marker"@ { 3 }
    else if k == "atx_h4_marker"@ { 4 } else if k == "atx_h5_marker"@ { 5 } else if k == "atx_h6_marker"@ { 6 }
    else { 0 }
}

/// The tier and text of a heading after its first `k` children: an `inline` child gives the
/// text, a marker the tier.
pub open spec fn heading_fold(ns: Seq<TextNodeView>, src: Seq<char>, cs: Seq<int>, k: int) -> (u8, Seq<char>)
    decreases k,
{
    if k <= 0 {
        (0, Seq::empty())
    } else {
        let (tier, text) = heading_fold(ns, src, cs, k - 1);
        let c = cs[k - 1];
        if ns[c].kind == "inline"@ {
            (tier, node_text(ns, src, c))
        } else if heading_tier(ns[c].kind) != 0 {
            (heading_tier(ns[c].kind), text)
        } else {
            (tier, text)
        }
    }
}

/// The tier of a heading marker kind (see [`heading_tier`]).
fn heading_tier_exec(k: &String) -> (t: u8)
    ensures
        t == heading_tier(k@),
{
    if is_kind(k, "atx_h1_marker") { 1 } else if is_kind(k, "atx_h2_marker") { 2 } else if is_kind(k, "atx_h3_marker") { 3 }
    else if is_kind(k, "atx_h4_marker") { 4 } else if is_kind(k, "atx_h5_marker") { 5 } else if is_kind(k, "atx_h6_marker") { 6 }
    else { 0 }
}

/// The content of a heading node.
pub open spec fn heading_content(ns: Seq<TextNodeView>, src: Seq<char>, i: int) -> MdContentView {
    let cs = children(ns, i);
    let (tier, text) = heading_fold(ns, src, cs, cs.len() as int);
    MdContentView::Header { tier, text }
}

/// The content of a heading node (see [`heading_content`]).
pub(crate) fn heading_exec(ns: &Vec<TextNode>, src: &Vec<char>, i: usize) -> (c: MdContent)
    requires
        i < ns@.len(),
    ensures
        c@ == heading_content(nodes_view(ns@), src@, i as int),
{
    let ghost nv = nodes_view(ns@);
    let cs = children_exec(ns, i);
    let ghost csv = cs@.map_values(|k: usize| k as int);
    let mut tier: u8 = 0;
    let mut text = String::new();
    for k in 0..cs.len()
        invariant
            nv == nodes_view(ns@),
            csv == cs@.map_values(|k: usize| k as int),
            csv == children(nv, i as int),
            forall|m: int| 0 <= m < cs@.len() ==> i < #[trigger] cs@[m] < ns@.len(),
            (tier, text@) == heading_fold(nv, src@, csv, k as int),
    {
        let c = cs[k];
        proof { assert(csv[k as int] == c as int); assert(nv[c as int] == ns@[c as int]@); }
        let t = heading_tier_exec(&ns[c].kind);
        if is_kind(&ns[c].kind, "inline") {
            text = slice_string(src, ns[c].start, ns[c].end);
        } else if t != 0 {
            tier = t;
        }
    }
    MdContent::Header { tier, text }
}

// ---------------------------------------------------------------------------------------
// Code blocks

/// The language and code of a fenced code block after its first `k` children.
pub open spec fn fence_fold(ns: Seq<TextNodeView>, src: Seq<char>, cs: Seq<int>, k: int) -> (Seq<char>, Seq<char>)
    decreases k,
{
    if k <= 0 {
        (Seq::empty(), Seq::empty())
    } else {
        let (language, code) = fence_fold(ns, src, cs, k - 1);
        let c = cs[k - 1];
        if ns[c].kind == "info_string"@ {
            (trim_seq(node_text(ns, src, c)), code)
        } else if ns[c].kind == "code_fence_content"@ {
            (language, node_text(ns, src, c))
        } else {
            (language, code)
        }
    }
}

/// The content of a fenced code block: its trimmed info string as language, and its content
/// without the final line feed.
pub open spec fn fenced_content(ns: Seq<TextNodeView>, src: Seq<char>, i: int) -> MdContentView {
    let cs = children(ns, i);
    let (language, code) = fence_fold(ns, src, cs, cs.len() as int);
    let code1 = if code.len() > 0 && code.last() == '\n' { code.drop_last() } else { code };
    MdContentView::CodeBlock { language, code: code1 }
}

/// The content of a fenced code block (see [`fenced_content`]).
fn fenced_exec(ns: &Vec<TextNode>, src: &Vec<char>, i: usize) -> (c: MdContent)
    requires
        i < ns@.len(),
    ensures
        c@ == fenced_content(nodes_view(ns@), src@, i as int),
{
    let ghost nv = nodes_view(ns@);
    let cs = children_exec(ns, i);
    let ghost csv = cs@.map_values(|k: usize| k as int);
    let mut language = String::new();
    let mut code = String::new();
    for k in 0..cs.len()
        invariant
            nv == nodes_view(ns@),
            csv == cs@.map_values(|k: usize| k as int),
            csv == children(nv, i as int),
            forall|m: int| 0 <= m < cs@.len() ==> i < #[trigger] cs@[m] < ns@.len(),
            (language@, code@) == fence_fold(nv, src@, csv, k as int),
    {
        let c = cs[k];
        proof { assert(csv[k as int] == c as int); assert(nv[c as int] == ns@[c as int]@); }
        if is_kind(&ns[c].kind, "info_string") {
            language = slice_string(src, ns[c].start, ns[c].end);
            trim_inplace(&mut language);
        } else if is_kind(&ns[c].kind, "code_fence_content") {
            code = slice_string(src, ns[c].start, ns[c].end);
        }
    }
    let v = chars_of(code.as_str());
    if v.len() > 0 && v[v.len() - 1] == '\n' {
        code = crate::text::string_of_range(&v, 0, v.len() - 1);
        assert(v@.subrange(0, v@.len() - 1) =~= v@.drop_last());
    }
    MdContent::CodeBlock { language, code }
}

/// A line of an indented code block without its four spaces of indentation.
pub open spec fn unindent(l: Seq<char>) -> Seq<char> {
    if l.len() >= 4 && l[0] == ' ' && l[1] == ' ' && l[2] == ' ' && l[3] == ' ' { l.skip(4) } else { l }
}

/// The first `k` lines unindented and joined with line feeds.
pub open spec fn join_unindented(ls: Seq<Seq<char>>, k: int) -> Seq<char>
    decreases k,
{
    if k <= 0 {
        Seq::empty()
    } else if k == 1 {
        unindent(ls[0])
    } else {
        join_unindented(ls, k - 1) + seq!['\n'] + unindent(ls[k - 1])
    }
}

/// The content of an indented code block: its lines without their indentation.
pub open spec fn indented_content(ns: Seq<TextNodeView>, src: Seq<char>, i: int) -> MdContentView {
    let ls = text_lines(node_text(ns, src, i));
    MdContentView::CodeBlock { language: Seq::empty(), code: join_unindented(ls, ls.len() as int) }
}

/// The content of an indented code block (see [`indented_content`]).
fn indented_exec(ns: &Vec<TextNode>, src: &Vec<char>, i: usize) -> (c: MdContent)
    requires
        i < ns@.len(),
    ensures
        c@ == indented_content(nodes_view(ns@), src@, i as int),
{
    proof { assert(nodes_view(ns@)[i as int] == ns@[i as int]@); }
    let whole = slice_string(src, ns[i].start, ns[i].end);
    let ls = split_lines(whole.as_str());
    let ghost lv = ls@.map_values(|l: String| l@);
    let mut code = String::new();
    for k in 0..ls.len()
        invariant
            lv == ls@.map_values(|l: String| l@),
            code@ == join_unindented(lv, k as int),
    {
        let v = chars_of(ls[k].as_str());
        proof { assert(lv[k as int] == v@); }
        let line = if v.len() >= 4 && v[0] == ' ' && v[1] == ' ' && v[2] == ' ' && v[3] == ' ' {
            crate::text::string_of_range(&v, 4, v.len())
        } else {
            string_of(&v)
        };
        proof {
            assert(v@.subrange(4, v@.len() as int) =~= v@.skip(4));
        }
        if k > 0 {
            code.push('\n');
        }
        code.append(line.as_str());
        proof {
            if k > 0 {
                assert(code@ =~= join_unindented(lv, k as int) + seq!['\n'] + unindent(lv[k as int]));
            } else {
                assert(code@ =~= unindent(lv[0]));
            }
        }
    }
    MdContent::CodeBlock { language: String::new(), code }
}

// ---------------------------------------------------------------------------------------
// Tables

/// The spans of the cells of a table row after its first `k` children.
pub open spec fn row_fold(ns: Seq<TextNodeView>, src: Seq<char>, cs: Seq<int>, k: int) -> Seq<Seq<SpanView>>
    decreases k,
{
    if k <= 0 {
        Seq::empty()
    } else {
        let prev = row_fold(ns, src, cs, k - 1);
        let c = cs[k - 1];
        if ns[c].kind == "pipe_table_cell"@ {
            let t = trim_seq(node_text(ns, src, c));
            prev.push(cell_content(t, inline_syntax(t)))
        } else {
            prev
        }
    }
}

/// The cells of a table row.
pub open spec fn row_spec(ns: Seq<TextNodeView>, src: Seq<char>, i: int) -> Seq<Seq<SpanView>> {
    let cs = children(ns, i);
    row_fold(ns, src, cs, cs.len() as int)
}

/// The cells of a table row (see [`row_spec`]).
fn row_exec(ns: &Vec<TextNode>, src: &Vec<char>, i: usize) -> (r: Vec<Vec<Span>>)
    requires
        i < ns@.len(),
    ensures
        cells_view(r@) == row_spec(nodes_view(ns@), src@, i as int),
{
    let ghost nv = nodes_view(ns@);
    let cs = children_exec(ns, i);
    let ghost csv = cs@.map_values(|k: usize| k as int);
    let mut cells: Vec<Vec<Span>> = Vec::new();
    for k in 0..cs.len()
        invariant
            nv == nodes_view(ns@),
            csv == cs@.map_values(|k: usize| k as int),
            csv == children(nv, i as int),
            forall|m: int| 0 <= m < cs@.len() ==> i < #[trigger] cs@[m] < ns@.len(),
            cells_view(cells@) == row_fold(nv, src@, csv, k as int),
    {
        let c = cs[k];
        proof { assert(csv[k as int] == c as int); assert(nv[c as int] == ns@[c as int]@); }
        if is_kind(&ns[c].kind, "pipe_table_cell") {
            let mut t = slice_string(src, ns[c].start, ns[c].end);
            trim_inplace(&mut t);
            let tree = parse_inline_syntax(t.as_str());
            proof { assert(crate::syntax::tree_view(tree) == inline_syntax(t@)); }
            let cell = cell_from_inline(t.as_str(), tree);
            let ghost c0 = cells@;
            cells.push(cell);
            proof { assert(cells_view(cells@) =~= cells_view(c0).push(spans_view(cell@))); }
        }
    }
    cells
}

/// The alignment that a delimiter cell gives: colons at both ends center, one at the end
/// aligns right, anything else left.
pub open spec fn alignment_of(t: Seq<char>) -> TableAlignment {
    let starts = t.len() > 0 && t[0] == ':';
    let ends = t.len() > 0 && t.last() == ':';
    if starts && ends { TableAlignment::Center } else if ends { TableAlignment::Right } else { TableAlignment::Left }
}

/// The alignments of a delimiter row after its first `k` children.
pub open spec fn alignments_fold(ns: Seq<TextNodeView>, src: Seq<char>, cs: Seq<int>, k: int) -> Seq<TableAlignment>
    decreases k,
{
    if k <= 0 {
        Seq::empty()
    } else {
        let prev = alignments_fold(ns, src, cs, k - 1);
        let c = cs[k - 1];
        if ns[c].kind == "pipe_table_delimiter_cell"@ { prev.push(alignment_of(node_text(ns, src, c))) } else { prev }
    }
}

/// The alignments of a delimiter row.
pub open spec fn alignments_spec(ns: Seq<TextNodeView>, src: Seq<char>, i: int) -> Seq<TableAlignment> {
    let cs = children(ns, i);
    alignments_fold(ns, src, cs, cs.len() as int)
}

/// The alignments of a delimiter row (see [`alignments_spec`]).
fn alignments_exec(ns: &Vec<TextNode>, src: &Vec<char>, i: usize) -> (r: Vec<TableAlignment>)
    requires
        i < ns@.len(),
    ensures
        r@ == alignments_spec(nodes_view(ns@), src@, i as int),
{
    let ghost nv = nodes_view(ns@);
    let cs = children_exec(ns, i);
    let ghost csv = cs@.map_values(|k: usize| k as int);
    let mut out: Vec<TableAlignment> = Vec::new();
    for k in 0..cs.len()
        invariant
            nv == nodes_view(ns@),
            csv == cs@.map_values(|k: usize| k as int),
            csv == children(nv, i as int),
            forall|m: int| 0 <= m < cs@.len() ==> i < #[trigger] cs@[m] < ns@.len(),
            out@ == alignments_fold(nv, src@, csv, k as int),
    {
        let c = cs[k];
        proof { assert(csv[k as int] == c as int); assert(nv[c as int] == ns@[c as int]@); }
        if is_kind(&ns[c].kind, "pipe_table_delimiter_cell") {
            let t = chars_of(slice_string(src, ns[c].start, ns[c].end).as_str());
            let starts = t.len() > 0 && t[0] == ':';
            let ends = t.len() > 0 && t[t.len() - 1] == ':';
            let a = if starts && ends { TableAlignment::Center } else if ends { TableAlignment::Right } else { TableAlignment::Left };
            out.push(a);
        }
    }
    out
}

/// The header, rows and alignments of a table after its first `k` children.
pub open spec fn table_fold(ns: Seq<TextNodeView>, src: Seq<char>, cs: Seq<int>, k: int) -> (Seq<Seq<SpanView>>, Seq<Seq<Seq<SpanView>>>, Seq<TableAlignment>)
    decreases k,
{
    if k <= 0 {
        (Seq::empty(), Seq::empty(), Seq::empty())
    } else {
        let (header, rows, aligns) = table_fold(ns, src, cs, k - 1);
        let c = cs[k - 1];
        if ns[c].kind == "pipe_table_header"@ {
            (row_spec(ns, src, c), rows, aligns)
        } else if ns[c].kind == "pipe_table_delimiter_row"@ {
            (header, rows, alignments_spec(ns, src, c))
        } else if ns[c].kind == "pipe_table_row"@ {
            (header, rows.push(row_spec(ns, src, c)), aligns)
        } else {
            (header, rows, aligns)
        }
    }
}

/// `a` padded with left alignments up to length `n`.
pub open spec fn pad_alignments(a: Seq<TableAlignment>, n: int) -> Seq<TableAlignment> {
    if a.len() >= n { a } else { a + Seq::new((n - a.len()) as nat, |i: int| TableAlignment::Left) }
}

/// The content of a table: its header, rows and alignments (left for columns without one).
pub open spec fn table_content(ns: Seq<TextNodeView>, src: Seq<char>, i: int) -> MdContentView {
    let cs = children(ns, i);
    let (header, rows, aligns) = table_fold(ns, src, cs, cs.len() as int);
    MdContentView::Table { header, rows, alignments: pad_alignments(aligns, header.len() as int) }
}

/// The content of a table (see [`table_content`]).
fn table_exec(ns: &Vec<TextNode>, src: &Vec<char>, i: usize) -> (c: MdContent)
    requires
        i < ns@.len(),
    ensures
        c@ == table_content(nodes_view(ns@), src@, i as int),
{
    let ghost nv = nodes_view(ns@);
    let cs = children_exec(ns, i);
    let ghost csv = cs@.map_values(|k: usize| k as int);
    let mut header: Vec<Vec<Span>> = Vec::new();
    let mut rows: Vec<Vec<Vec<Span>>> = Vec::new();
    let mut alignments: Vec<TableAlignment> = Vec::new();
    assert(cells_view(header@) =~= Seq::<Seq<SpanView>>::empty());
    assert(rows_view(rows@) =~= Seq::<Seq<Seq<SpanView>>>::empty());
    for k in 0..cs.len()
        invariant
            nv == nodes_view(ns@),
            csv == cs@.map_values(|k: usize| k as int),
            csv == children(nv, i as int),
            forall|m: int| 0 <= m < cs@.len() ==> i < #[trigger] cs@[m] < ns@.len(),
            (cells_view(header@), rows_view(rows@), alignments@) == table_fold(nv, src@, csv, k as int),
    {
        let c = cs[k];
        proof { assert(csv[k as int] == c as int); assert(nv[c as int] == ns@[c as int]@); }
        if is_kind(&ns[c].kind, "pipe_table_header") {
            header = row_exec(ns, src, c);
        } else if is_kind(&ns[c].kind, "pipe_table_delimiter_row") {
            alignments = alignments_exec(ns, src, c);
        } else if is_kind(&ns[c].kind, "pipe_table_row") {
            let r = row_exec(ns, src, c);
            let ghost r0 = rows@;
            rows.push(r);
            proof { assert(rows_view(rows@) =~= rows_view(r0).push(cells_view(r@))); }
        }
    }
    let ghost a0 = alignments@;
    while alignments.len() < header.len()
        invariant
            a0.len() <= alignments@.len(),
            alignments@.len() <= header@.len() || alignments@ == a0,
            alignments@ =~= a0 + Seq::new((alignments@.len() - a0.len()) as nat, |i: int| TableAlignment::Left),
        decreases header.len() - alignments.len(),
    {
        alignments.push(TableAlignment::Left);
    }
    proof {
        if a0.len() >= header@.len() {
            assert(alignments@ =~= a0);
        }
    }
    MdContent::Table { header, rows, alignments }
}


// ---------------------------------------------------------------------------------------
// Lists and containers

/// A kind of list marker node.
pub open spec fn is_marker_kind(k: Seq<char>) -> bool {
    k == "list_marker_minus"@ || k == "list_marker_plus"@ || k == "list_marker_star"@ || k == "list_marker_dot"@
        || k == "list_marker_parenthesis"@
}

/// The marker text, indentation and task state of a list item after its first `k` children:
/// a list marker gives its trimmed text and its column, a task marker whether it is checked.
pub open spec fn marker_fold(ns: Seq<TextNodeView>, src: Seq<char>, cs: Seq<int>, k: int) -> ListMarkerView
    decreases k,
{
    if k <= 0 {
        ListMarkerView { original: "-"@, indent: 0, task: None }
    } else {
        let m = marker_fold(ns, src, cs, k - 1);
        let c = cs[k - 1];
        let kind = ns[c].kind;
        if is_marker_kind(kind) {
            ListMarkerView { original: trim_seq(node_text(ns, src, c)), indent: ns[c].column, task: m.task }
        } else if kind == "task_list_marker_checked"@ {
            ListMarkerView { task: Some(true), ..m }
        } else if kind == "task_list_marker_unchecked"@ {
            ListMarkerView { task: Some(false), ..m }
        } else {
            m
        }
    }
}

/// The marker of a list item node.
pub open spec fn list_marker_spec(ns: Seq<TextNodeView>, src: Seq<char>, i: int) -> ListMarkerView {
    let cs = children(ns, i);
    marker_fold(ns, src, cs, cs.len() as int)
}

/// The marker of a list item node (see [`list_marker_spec`]).
fn extract_list_marker(ns: &Vec<TextNode>, src: &Vec<char>, i: usize) -> (m: ListMarker)
    requires
        i < ns@.len(),
    ensures
        m@ == list_marker_spec(nodes_view(ns@), src@, i as int),
{
    let ghost nv = nodes_view(ns@);
    let cs = children_exec(ns, i);
    let ghost csv = cs@.map_values(|k: usize| k as int);
    let mut original = "-".to_owned();
    let mut indent: usize = 0;
    let mut task: Option<bool> = None;
    for k in 0..cs.len()
        invariant
            nv == nodes_view(ns@),
            csv == cs@.map_values(|k: usize| k as int),
            csv == children(nv, i as int),
            forall|m: int| 0 <= m < cs@.len() ==> i < #[trigger] cs@[m] < ns@.len(),
            (ListMarkerView { original: original@, indent, task }) == marker_fold(nv, src@, csv, k as int),
    {
        let c = cs[k];
        proof { assert(csv[k as int] == c as int); assert(nv[c as int] == ns@[c as int]@); }
        let kind = &ns[c].kind;
        if is_kind(kind, "list_marker_minus") || is_kind(kind, "list_marker_plus") || is_kind(kind, "list_marker_star")
            || is_kind(kind, "list_marker_dot") || is_kind(kind, "list_marker_parenthesis") {
            original = slice_string(src, ns[c].start, ns[c].end);
            trim_inplace(&mut original);
            indent = ns[c].column;
        } else if is_kind(kind, "task_list_marker_checked") {
            task = Some(true);
        } else if is_kind(kind, "task_list_marker_unchecked") {
            task = Some(false);
        }
    }
    ListMarker::with_task(original, indent, task)
}

/// The first child among `cs[k..]` that is a list item.
pub open spec fn first_item(ns: Seq<TextNodeView>, cs: Seq<int>, k: int) -> Option<int>
    decreases cs.len() - k,
{
    if k < 0 || k >= cs.len() {
        None
    } else if ns[cs[k]].kind == "list_item"@ {
        Some(cs[k])
    } else {
        first_item(ns, cs, k + 1)
    }
}

/// The container that node `i` opens: a list (with the marker of its first item, a dash
/// without items), a list item with its marker, or a blockquote.
pub open spec fn container_of(ns: Seq<TextNodeView>, src: Seq<char>, i: int) -> Option<MdContainerView> {
    let k = ns[i].kind;
    if k == "list"@ {
        match first_item(ns, children(ns, i), 0) {
            Some(c) => Some(MdContainerView::List(list_marker_spec(ns, src, c))),
            None => Some(MdContainerView::List(ListMarkerView { original: "-"@, indent: 0, task: None })),
        }
    } else if k == "list_item"@ {
        Some(MdContainerView::ListItem(list_marker_spec(ns, src, i)))
    } else if k == "block_quote"@ {
        Some(MdContainerView::Blockquote)
    } else {
        None
    }
}

/// The container that node `i` opens (see [`container_of`]).
fn node_to_container(ns: &Vec<TextNode>, src: &Vec<char>, i: usize) -> (r: Option<MdContainer>)
    requires
        i < ns@.len(),
    ensures
        match r {
            Some(c) => container_of(nodes_view(ns@), src@, i as int) == Some(c@),
            None => container_of(nodes_view(ns@), src@, i as int) is None,
        },
{
    let ghost nv = nodes_view(ns@);
    proof { assert(nv[i as int] == ns@[i as int]@); }
    let kind = &ns[i].kind;
    if is_kind(kind, "list") {
        let cs = children_exec(ns, i);
        let ghost csv = cs@.map_values(|k: usize| k as int);
        let mut k: usize = 0;
        while k < cs.len()
            invariant
                nv == nodes_view(ns@),
                csv == cs@.map_values(|k: usize| k as int),
                csv == children(nv, i as int),
                forall|m: int| 0 <= m < cs@.len() ==> i < #[trigger] cs@[m] < ns@.len(),
                k <= cs@.len(),
                nv[i as int].kind == "list"@,
                first_item(nv, csv, 0) == first_item(nv, csv, k as int),
            decreases cs.len() - k,
        {
            let c = cs[k];
            proof { assert(csv[k as int] == c as int); assert(nv[c as int] == ns@[c as int]@); }
            if is_kind(&ns[c].kind, "list_item") {
                assert(csv.len() == cs@.len());
                assert(first_item(nv, csv, k as int) == Some(c as int));
                assert(nv[i as int].kind == "list"@);
                assert(first_item(nv, children(nv, i as int), 0) == Some(c as int));
                let m = extract_list_marker(ns, src, c);
                assert(container_of(nv, src@, i as int) == Some(MdContainerView::List(list_marker_spec(nv, src@, c as int))));
                return Some(MdContainer::List(m));
            }
            assert(first_item(nv, csv, k as int) == first_item(nv, csv, k + 1));
            k = k + 1;
        }
        assert(first_item(nv, csv, k as int) is None);
        Some(MdContainer::List(ListMarker::new("-".to_owned(), 0)))
    } else if is_kind(kind, "list_item") {
        Some(MdContainer::ListItem(extract_list_marker(ns, src, i)))
    } else if is_kind(kind, "block_quote") {
        Some(MdContainer::Blockquote(BlockquoteMarker))
    } else {
        None
    }
}

/// The nearest node before `j + 1` that is shallower than node `i`, or -1.
pub open spec fn parent_from(ns: Seq<TextNodeView>, i: int, j: int) -> int
    decreases j + 1,
{
    if j < 0 || j >= ns.len() {
        -1
    } else if ns[j].depth < ns[i].depth {
        j
    } else {
        parent_from(ns, i, j - 1)
    }
}

/// The parent of node `i` (in preorder, the nearest shallower node before it), or -1.
pub open spec fn parent_of(ns: Seq<TextNodeView>, i: int) -> int {
    parent_from(ns, i, i - 1)
}

/// The parent of node `i`, if any (see [`parent_of`]).
fn parent_exec(ns: &Vec<TextNode>, i: usize) -> (r: Option<usize>)
    requires
        i < ns@.len(),
    ensures
        match r {
            Some(p) => p as int == parent_of(nodes_view(ns@), i as int) && p < ns@.len(),
            None => parent_of(nodes_view(ns@), i as int) == -1,
        },
{
    let ghost nv = nodes_view(ns@);
    let mut j = i;
    while j > 0
        invariant
            nv == nodes_view(ns@),
            j <= i < ns@.len(),
            parent_of(nv, i as int) == parent_from(nv, i as int, j - 1),
        decreases j,
    {
        proof { assert(nv[j - 1] == ns@[j - 1]@); assert(nv[i as int] == ns@[i as int]@); }
        if ns[j - 1].depth < ns[i].depth {
            return Some(j - 1);
        }
        j = j - 1;
    }
    None
}

/// The content of node `i` inside `blockquotes` blockquotes, when it is a section:
/// paragraphs, headings, blank lines inside a blockquote, code blocks, horizontal rules and
/// tables.
pub open spec fn node_content(ns: Seq<TextNodeView>, src: Seq<char>, i: int, blockquotes: nat) -> Option<MdContentView> {
    let k = ns[i].kind;
    if k == "paragraph"@ {
        let t = node_text(ns, src, i);
        paragraph_content(t, inline_syntax(t), blockquotes)
    } else if k == "atx_heading"@ {
        Some(heading_content(ns, src, i))
    } else if k == "block_continuation"@ {
        let p = parent_of(ns, i);
        if p >= 0 && ns[p].kind == "block_quote"@ {
            Some(MdContentView::Paragraph { backing: Seq::empty(), spans: Seq::empty() })
        } else {
            None
        }
    } else if k == "fenced_code_block"@ {
        Some(fenced_content(ns, src, i))
    } else if k == "indented_code_block"@ {
        Some(indented_content(ns, src, i))
    } else if k == "thematic_break"@ {
        Some(MdContentView::HorizontalRule)
    } else if k == "pipe_table"@ {
        Some(table_content(ns, src, i))
    } else {
        None
    }
}

/// The content of node `i`, if it is a section (see [`node_content`]).
fn parse_node(ns: &Vec<TextNode>, src: &Vec<char>, i: usize, blockquotes: usize) -> (r: Option<MdContent>)
    requires
        i < ns@.len(),
    ensures
        match r {
            Some(c) => node_content(nodes_view(ns@), src@, i as int, blockquotes as nat) == Some(c@),
            None => node_content(nodes_view(ns@), src@, i as int, blockquotes as nat) is None,
        },
{
    let ghost nv = nodes_view(ns@);
    proof { assert(nv[i as int] == ns@[i as int]@); }
    let kind = &ns[i].kind;
    if is_kind(kind, "paragraph") {
        let t = slice_string(src, ns[i].start, ns[i].end);
        MdParagraph::parse_paragraph(t.as_str(), blockquotes)
    } else if is_kind(kind, "atx_heading") {
        Some(heading_exec(ns, src, i))
    } else if is_kind(kind, "block_continuation") {
        match parent_exec(ns, i) {
            Some(p) => {
                proof { assert(nv[p as int] == ns@[p as int]@); }
                if is_kind(&ns[p].kind, "block_quote") {
                    let e = MdParagraph::empty();
                    proof { assert(spans_view(e.spans@) =~= Seq::<SpanView>::empty()); }
                    Some(MdContent::Paragraph(e))
                } else {
                    None
                }
            },
            None => None,
        }
    } else if is_kind(kind, "fenced_code_block") {
        Some(fenced_exec(ns, src, i))
    } else if is_kind(kind, "indented_code_block") {
        Some(indented_exec(ns, src, i))
    } else if is_kind(kind, "thematic_break") {
        Some(MdContent::HorizontalRule)
    } else if is_kind(kind, "pipe_table") {
        Some(table_exec(ns, src, i))
    } else {
        None
    }
}


// ---------------------------------------------------------------------------------------
// The walk over a document

/// The state of the walk over the nodes of a document: the open containers with the depth of
/// the node that opened each, the depth of the list item whose first content has been seen,
/// and the sections so far.
pub struct WalkState {
    pub ctx: Seq<(usize, MdContainerView)>,
    pub item_with_content: Option<usize>,
    pub out: Seq<MdSectionView>,
}

/// Close the containers opened at depth `d` or deeper; closing the list item whose content
/// was seen forgets it.
pub open spec fn pop_to(ctx: Seq<(usize, MdContainerView)>, seen: Option<usize>, d: usize) -> (Seq<(usize, MdContainerView)>, Option<usize>)
    decreases ctx.len(),
{
    if ctx.len() > 0 && ctx.last().0 >= d {
        let seen1 = if ctx.last().1 is ListItem && seen == Some(ctx.last().0) { None } else { seen };
        pop_to(ctx.drop_last(), seen1, d)
    } else {
        (ctx, seen)
    }
}

/// The number of open blockquotes.
pub open spec fn blockquote_count(ctx: Seq<(usize, MdContainerView)>) -> nat
    decreases ctx.len(),
{
    if ctx.len() == 0 {
        0
    } else {
        blockquote_count(ctx.drop_last()) + if ctx.last().1 is Blockquote { 1nat } else { 0nat }
    }
}

/// The depth of the innermost open list item, if any.
pub open spec fn last_item_depth(ctx: Seq<(usize, MdContainerView)>) -> Option<usize>
    decreases ctx.len(),
{
    if ctx.len() == 0 {
        None
    } else if ctx.last().1 is ListItem {
        Some(ctx.last().0)
    } else {
        last_item_depth(ctx.drop_last())
    }
}

/// The open containers, outermost first.
pub open spec fn ctx_nesting(ctx: Seq<(usize, MdContainerView)>) -> Seq<MdContainerView> {
    ctx.map_values(|p: (usize, MdContainerView)| p.1)
}

/// Visiting node `i`: open its container; move on, which closes the containers that the next
/// node is not inside (all of them after the last node); and emit its content as a section,
/// nested in the open containers, a continuation when its list item already had content.
pub open spec fn walk_step(ns: Seq<TextNodeView>, src: Seq<char>, st: WalkState, i: int) -> WalkState {
    let n = ns[i];
    let ctx1 = match container_of(ns, src, i) {
        Some(c) => st.ctx.push((n.depth, c)),
        None => st.ctx,
    };
    let (ctx2, seen2) = if i + 1 < ns.len() {
        if ns[i + 1].depth < n.depth { pop_to(ctx1, st.item_with_content, ns[i + 1].depth) } else { (ctx1, st.item_with_content) }
    } else {
        pop_to(ctx1, st.item_with_content, 0)
    };
    match node_content(ns, src, i, blockquote_count(ctx2)) {
        None => WalkState { ctx: ctx2, item_with_content: seen2, out: st.out },
        Some(content) => {
            let (cont, seen3) = match last_item_depth(ctx2) {
                Some(d) => if seen2 == Some(d) { (true, seen2) } else { (false, Some(d)) },
                None => (false, seen2),
            };
            WalkState {
                ctx: ctx2,
                item_with_content: seen3,
                out: st.out.push(MdSectionView { content, nesting: ctx_nesting(ctx2), is_list_continuation: cont }),
            }
        },
    }
}

/// The walk from node `i` on.
pub open spec fn walk_from(ns: Seq<TextNodeView>, src: Seq<char>, st: WalkState, i: int) -> WalkState
    decreases ns.len() - i,
{
    if i < 0 || i >= ns.len() {
        st
    } else {
        walk_from(ns, src, walk_step(ns, src, st, i), i + 1)
    }
}

/// The sections of a document from the nodes of its block tree, in preorder.
pub open spec fn document_sections(ns: Seq<TextNodeView>, src: Seq<char>) -> Seq<MdSectionView> {
    walk_from(ns, src, WalkState { ctx: Seq::empty(), item_with_content: None, out: Seq::empty() }, 0).out
}

/// The sections of the markdown `text`, when tree-sitter-md gives it a usable block tree.
pub open spec fn markdown_sections(text: Seq<char>) -> Option<Seq<MdSectionView>> {
    match block_syntax(text) {
        None => None,
        Some(sn) => match text_nodes(text, sn) {
            None => None,
            Some(ns) => Some(document_sections(ns, text)),
        },
    }
}

/// The views of the open containers.
pub open spec fn ctx_view(v: Seq<(usize, MdContainer)>) -> Seq<(usize, MdContainerView)> {
    v.map_values(|p: (usize, MdContainer)| (p.0, p.1@))
}

/// Close containers (see [`pop_to`]).
fn pop_to_exec(ctx: &mut Vec<(usize, MdContainer)>, seen: &mut Option<usize>, d: usize)
    ensures
        (ctx_view(final(ctx)@), *final(seen)) == pop_to(ctx_view(old(ctx)@), *old(seen), d),
{
    let ghost goal = pop_to(ctx_view(ctx@), *seen, d);
    while ctx.len() > 0 && ctx[ctx.len() - 1].0 >= d
        invariant
            goal == pop_to(ctx_view(ctx@), *seen, d),
        decreases ctx@.len(),
    {
        let ghost c0 = ctx@;
        proof { assert(ctx_view(c0).last() == (c0.last().0, c0.last().1@)); }
        let (pd, c) = ctx.pop().unwrap();
        proof { assert(ctx_view(ctx@) =~= ctx_view(c0).drop_last()); }
        let item = match c {
            MdContainer::ListItem(_) => true,
            _ => false,
        };
        if item && *seen == Some(pd) {
            *seen = None;
        }
    }
    proof {
        if ctx@.len() > 0 {
            assert(ctx_view(ctx@).last().0 == ctx@.last().0);
        }
    }
}

/// The number of open blockquotes (see [`blockquote_count`]).
fn blockquote_count_exec(ctx: &Vec<(usize, MdContainer)>) -> (n: usize)
    ensures
        n == blockquote_count(ctx_view(ctx@)),
{
    let mut n: usize = 0;
    for k in 0..ctx.len()
        invariant
            n == blockquote_count(ctx_view(ctx@).take(k as int)),
            n <= k,
    {
        proof {
            assert(ctx_view(ctx@).take(k + 1).drop_last() =~= ctx_view(ctx@).take(k as int));
            assert(ctx_view(ctx@).take(k + 1).last() == (ctx@[k as int].0, ctx@[k as int].1@));
        }
        if let MdContainer::Blockquote(_) = &ctx[k].1 {
            n = n + 1;
        }
    }
    assert(ctx_view(ctx@).take(ctx@.len() as int) =~= ctx_view(ctx@));
    n
}

/// The depth of the innermost open list item (see [`last_item_depth`]).
fn last_item_depth_exec(ctx: &Vec<(usize, MdContainer)>) -> (r: Option<usize>)
    ensures
        r == last_item_depth(ctx_view(ctx@)),
{
    let mut k = ctx.len();
    assert(ctx_view(ctx@).take(k as int) =~= ctx_view(ctx@));
    while k > 0
        invariant
            k <= ctx@.len(),
            last_item_depth(ctx_view(ctx@)) == last_item_depth(ctx_view(ctx@).take(k as int)),
        decreases k,
    {
        proof {
            assert(ctx_view(ctx@).take(k as int).drop_last() =~= ctx_view(ctx@).take(k - 1));
            assert(ctx_view(ctx@).take(k as int).last() == (ctx@[k - 1].0, ctx@[k - 1].1@));
        }
        if let MdContainer::ListItem(_) = &ctx[k - 1].1 {
            return Some(ctx[k - 1].0);
        }
        k = k - 1;
    }
    None
}

/// The open containers as a nesting (see [`ctx_nesting`]).
fn nesting_of(ctx: &Vec<(usize, MdContainer)>) -> (r: Vec<MdContainer>)
    ensures
        nesting_view(r@) == ctx_nesting(ctx_view(ctx@)),
{
    let mut r: Vec<MdContainer> = Vec::new();
    for k in 0..ctx.len()
        invariant
            r@.len() == k,
            nesting_view(r@) == ctx_nesting(ctx_view(ctx@)).take(k as int),
    {
        let c = ctx[k].1.copy();
        let ghost r0 = r@;
        r.push(c);
        proof {
            assert(r@ =~= r0.push(c));
            assert(nesting_view(r@)[k as int] == c@);
            assert(ctx_nesting(ctx_view(ctx@))[k as int] == ctx@[k as int].1@);
            assert(nesting_view(r@) =~= ctx_nesting(ctx_view(ctx@)).take(k + 1));
        }
    }
    assert(ctx_nesting(ctx_view(ctx@)).take(ctx@.len() as int) =~= ctx_nesting(ctx_view(ctx@)));
    r
}

/// The sections of a document from the character-indexed nodes of its block tree (see
/// [`document_sections`]).
pub fn walk_nodes(ns: &Vec<TextNode>, src: &Vec<char>) -> (r: Vec<MdSection>)
    ensures
        sections_view(r@) == document_sections(nodes_view(ns@), src@),
{
    let ghost nv = nodes_view(ns@);
    let mut ctx: Vec<(usize, MdContainer)> = Vec::new();
    let mut seen: Option<usize> = None;
    let mut out: Vec<MdSection> = Vec::new();
    let ghost goal = document_sections(nv, src@);
    proof {
        assert(ctx_view(ctx@) =~= Seq::<(usize, MdContainerView)>::empty());
        assert(sections_view(out@) =~= Seq::<MdSectionView>::empty());
    }
    let n = ns.len();
    for i in 0..n
        invariant
            n == ns@.len(),
            nv == nodes_view(ns@),
            goal == walk_from(nv, src@, WalkState { ctx: ctx_view(ctx@), item_with_content: seen, out: sections_view(out@) }, i as int).out,
    {
        proof { assert(nv[i as int] == ns@[i as int]@); }
        let ghost st = WalkState { ctx: ctx_view(ctx@), item_with_content: seen, out: sections_view(out@) };
        match node_to_container(ns, src, i) {
            Some(c) => {
                let ghost c0 = ctx@;
                ctx.push((ns[i].depth, c));
                proof { assert(ctx_view(ctx@) =~= ctx_view(c0).push((ns@[i as int].depth, c@))); }
            },
            None => {},
        }
        if i + 1 < n {
            proof { assert(nv[i + 1] == ns@[i + 1]@); }
            if ns[i + 1].depth < ns[i].depth {
                pop_to_exec(&mut ctx, &mut seen, ns[i + 1].depth);
            }
        } else {
            pop_to_exec(&mut ctx, &mut seen, 0);
        }
        let bq = blockquote_count_exec(&ctx);
        match parse_node(ns, src, i, bq) {
            None => {},
            Some(content) => {
                let cont = match last_item_depth_exec(&ctx) {
                    Some(d) => {
                        if seen == Some(d) {
                            true
                        } else {
                            seen = Some(d);
                            false
                        }
                    },
                    None => false,
                };
                let nesting = nesting_of(&ctx);
                let sec = MdSection { content, nesting, is_list_continuation: cont };
                let ghost o = out@;
                out.push(sec);
                proof { assert(sections_view(out@) =~= sections_view(o).push(sec@)); }
            },
        }
        proof {
            assert(WalkState { ctx: ctx_view(ctx@), item_with_content: seen, out: sections_view(out@) } == walk_step(nv, src@, st, i as int));
        }
    }
    out
}

/// The sections of a document from its block tree (see [`document_sections`]); an error
/// when the tree's depths or ranges do not fit the text.
pub fn sections_from_syntax(text: &str, nodes: &Vec<SyntaxNode>) -> (r: Result<Vec<MdSection>, MarkdownParseError>)
    ensures
        match r {
            Ok(v) => match text_nodes(text@, syntax_view(nodes@)) {
                Some(ns) => sections_view(v@) == document_sections(ns, text@),
                None => false,
            },
            Err(_) => text_nodes(text@, syntax_view(nodes@)) is None,
        },
{
    let chars = chars_of(text);
    match to_text_nodes(&chars, nodes) {
        Some(ns) => Ok(walk_nodes(&ns, &chars)),
        None => Err(MarkdownParseError),
    }
}

/// Parse markdown into its sections (see [`markdown_sections`]); an error when
/// tree-sitter-md gives no usable tree.
pub fn parse_sections(text: &str) -> (r: Result<Vec<MdSection>, MarkdownParseError>)
    ensures
        match r {
            Ok(v) => markdown_sections(text@) == Some(sections_view(v@)),
            Err(_) => markdown_sections(text@) is None,
        },
{
    match parse_block_syntax(text) {
        Some(nodes) => sections_from_syntax(text, &nodes),
        None => Err(MarkdownParseError),
    }
}

} // verus!
