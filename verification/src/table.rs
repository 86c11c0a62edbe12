//! Tables: column widths, borders, and rows whose cells are wrapped and aligned.
use vstd::prelude::*;

use crate::lines::{
    Line, LineKind, LineKindView, LineView, MdLineContainer, lines_view, lemma_lines_view_push,
    lemma_lines_view_add, prefix_spans, nesting_to_prefix_spans, spans_width, spans_columns,
    mapped_wrapper_content,
};
use crate::mapper::Symbols;
use crate::markdown::TableAlignment;
use crate::modifier::Modifier;
use crate::span::{Span, SpanView, spans_view, plain, lemma_spans_view_push, lemma_spans_view_add, copy_spans};
use crate::text::{repeat_seq, repeat_str};
use crate::wrap::{wrap_lines, wrap_md_spans_lines, with_content};

verus! {

/// The views of the cells of a row.
pub open spec fn cells_view(row: Seq<Vec<Span>>) -> Seq<Seq<SpanView>> {
    crate::wrap::lines_view(row)
}

/// The views of the rows of a table.
pub open spec fn rows_view(rows: Seq<Vec<Vec<Span>>>) -> Seq<Seq<Seq<SpanView>>> {
    rows.map_values(|r: Vec<Vec<Span>>| cells_view(r@))
}

pub open spec fn max_usize(a: usize, b: usize) -> usize {
    if a >= b { a } else { b }
}

/// The content width of column `i`: the widest of its cell in the header and its cells in
/// the first `k` rows (rows too short to have one do not count).
pub open spec fn column_base(header: Seq<Seq<SpanView>>, rows: Seq<Seq<Seq<SpanView>>>, i: int, k: int) -> usize
    decreases k,
{
    if k <= 0 {
        spans_width(header[i])
    } else {
        let prev = column_base(header, rows, i, k - 1);
        if i < rows[k - 1].len() {
            max_usize(prev, spans_width(rows[k - 1][i]))
        } else {
            prev
        }
    }
}

/// The column widths before scaling: content width and one space of padding on each side.
pub open spec fn padded_widths(header: Seq<Seq<SpanView>>, rows: Seq<Seq<Seq<SpanView>>>) -> Seq<usize> {
    Seq::new(header.len(), |i: int| column_base(header, rows, i, rows.len() as int).saturating_add(2))
}

/// The (saturating) sum of widths.
pub open spec fn sum_widths(s: Seq<usize>) -> usize
    decreases s.len(),
{
    if s.len() == 0 {
        0
    } else {
        sum_widths(s.drop_last()).saturating_add(s.last())
    }
}

/// A column width scaled down to its share of the content width, at least three.
pub open spec fn scale_width(w: usize, content: usize, total: usize) -> usize {
    let s = (w as int * content as int) / (total as int);
    if s < 3 { 3 } else { s as usize }
}

/// The column widths: scaled down when the table with its borders is wider than the
/// available width (and that leaves room for the borders).
pub open spec fn column_widths(header: Seq<Seq<SpanView>>, rows: Seq<Seq<Seq<SpanView>>>, avail: usize) -> Seq<usize> {
    let base = padded_widths(header, rows);
    let n = header.len();
    let total = sum_widths(base);
    if total + n + 1 > avail && avail > n + 1 {
        let content = (avail - n - 1) as usize;
        Seq::new(n, |i: int| scale_width(base[i], content, total))
    } else {
        base
    }
}

/// A span of a table border.
pub open spec fn border_span(c: Seq<char>) -> SpanView {
    plain(c, Modifier { bits: Modifier::TABLE_BORDER })
}

/// The horizontal lines of the first `k` columns, with junctions between columns.
pub open spec fn border_middle(widths: Seq<usize>, mid: Seq<char>, horiz: Seq<char>, k: int) -> Seq<SpanView>
    decreases k,
{
    if k <= 0 {
        Seq::empty()
    } else {
        border_middle(widths, mid, horiz, k - 1) + seq![border_span(repeat_seq(horiz, widths[k - 1] as nat))]
            + if k - 1 < widths.len() - 1 { seq![border_span(mid)] } else { Seq::<SpanView>::empty() }
    }
}

/// A border line of the table.
pub open spec fn border_line(prefix: Seq<SpanView>, widths: Seq<usize>, left: Seq<char>, mid: Seq<char>, right: Seq<char>, horiz: Seq<char>) -> LineView {
    LineView {
        spans: prefix + seq![border_span(left)] + border_middle(widths, mid, horiz, widths.len() as int) + seq![border_span(right)],
        kind: LineKindView::TableBorder,
    }
}

/// The width of column `i`, three for a column that the widths do not cover.
pub open spec fn width_at(widths: Seq<usize>, i: int) -> usize {
    if 0 <= i < widths.len() { widths[i] } else { 3 }
}

/// The columns inside a cell of a column of width `w`: without the padding, at least one.
pub open spec fn cell_inner(w: usize) -> usize {
    let x = w.saturating_sub(2);
    if x < 1 { 1 } else { x }
}

/// The lines of a cell wrapped to its column, one empty line when nothing is left.
pub open spec fn wrapped_cell(cell: Seq<SpanView>, w: usize, hide_urls: bool) -> Seq<Seq<SpanView>> {
    let lines = wrap_lines(cell, cell_inner(w) as u16, hide_urls);
    if lines.len() == 0 { seq![Seq::<SpanView>::empty()] } else { lines }
}

/// The wrapped cells of a row.
pub open spec fn row_cells(row: Seq<Seq<SpanView>>, widths: Seq<usize>, hide_urls: bool) -> Seq<Seq<Seq<SpanView>>> {
    Seq::new(row.len(), |i: int| wrapped_cell(row[i], width_at(widths, i), hide_urls))
}

/// The largest number of lines among the first `k` cells.
pub open spec fn max_cell_lines(cells: Seq<Seq<Seq<SpanView>>>, k: int) -> nat
    decreases k,
{
    if k <= 0 {
        0
    } else {
        let prev = max_cell_lines(cells, k - 1);
        if cells[k - 1].len() > prev { cells[k - 1].len() } else { prev }
    }
}

/// The number of lines of a row: that of its tallest cell, one for a row without cells.
pub open spec fn row_height(cells: Seq<Seq<Seq<SpanView>>>) -> nat {
    if cells.len() == 0 { 1 } else { max_cell_lines(cells, cells.len() as int) }
}

/// The `line`-th line of cell `i`, empty where there is none.
pub open spec fn cell_piece(cells: Seq<Seq<Seq<SpanView>>>, i: int, line: int) -> Seq<SpanView> {
    if 0 <= i < cells.len() && 0 <= line < cells[i].len() { cells[i][line] } else { Seq::empty() }
}

/// The alignment of column `i`, left where none is given.
pub open spec fn alignment_at(aligns: Seq<TableAlignment>, i: int) -> TableAlignment {
    if 0 <= i < aligns.len() { aligns[i] } else { TableAlignment::Left }
}

/// The padding on the left and on the right of content for an alignment.
pub open spec fn align_pads(a: TableAlignment, p: usize) -> (usize, usize) {
    match a {
        TableAlignment::Center => ((p / 2) as usize, (p - p / 2) as usize),
        TableAlignment::Right => (p, 0),
        TableAlignment::Left => (0, p),
    }
}

/// Spaces without modifiers.
pub open spec fn spaces(n: nat) -> Seq<char> {
    repeat_seq(seq![' '], n)
}

/// Cell content with link brackets mapped to the mapper's symbols.
pub open spec fn mapped_cell(piece: Seq<SpanView>, sym: Symbols) -> Seq<SpanView> {
    piece.map_values(|v: SpanView| with_content(v, mapped_wrapper_content(v, sym)))
}

/// The spans of one cell line: padding for the alignment with a space on each side, the
/// content, and the vertical border.
pub open spec fn cell_spans(piece: Seq<SpanView>, w: usize, a: TableAlignment, sym: Symbols) -> Seq<SpanView> {
    let p = w.saturating_sub(2).saturating_sub(spans_width(piece));
    let (l, r) = align_pads(a, p);
    seq![plain(seq![' '] + spaces(l as nat), Modifier { bits: 0 })] + mapped_cell(piece, sym)
        + seq![plain(spaces(r as nat) + seq![' '], Modifier { bits: 0 }), border_span(sym.table_vertical@)]
}

/// The cell spans of the first `k` columns on line `line` of a row.
pub open spec fn row_line_cells(widths: Seq<usize>, aligns: Seq<TableAlignment>, cells: Seq<Seq<Seq<SpanView>>>, line: int, sym: Symbols, k: int) -> Seq<SpanView>
    decreases k,
{
    if k <= 0 {
        Seq::empty()
    } else {
        row_line_cells(widths, aligns, cells, line, sym, k - 1)
            + cell_spans(cell_piece(cells, k - 1, line), widths[k - 1], alignment_at(aligns, k - 1), sym)
    }
}

/// Filling for the columns `from..to` that a short row has no cell for.
pub open spec fn row_filler(widths: Seq<usize>, from: int, to: int, sym: Symbols) -> Seq<SpanView>
    decreases to - from,
{
    if from >= to {
        Seq::empty()
    } else {
        seq![plain(spaces(width_at(widths, from) as nat), Modifier { bits: 0 }), border_span(sym.table_vertical@)]
            + row_filler(widths, from + 1, to, sym)
    }
}

/// Line number `line` of a row with `row_len` cells.
pub open spec fn row_line(prefix: Seq<SpanView>, widths: Seq<usize>, aligns: Seq<TableAlignment>, cells: Seq<Seq<Seq<SpanView>>>, row_len: int, line: int, is_header: bool, sym: Symbols) -> LineView {
    LineView {
        spans: prefix + seq![border_span(sym.table_vertical@)] + row_line_cells(widths, aligns, cells, line, sym, widths.len() as int)
            + row_filler(widths, row_len, widths.len() as int, sym),
        kind: LineKindView::TableRow(is_header),
    }
}

/// The first `n` lines of a row.
pub open spec fn row_lines_upto(prefix: Seq<SpanView>, widths: Seq<usize>, aligns: Seq<TableAlignment>, row: Seq<Seq<SpanView>>, is_header: bool, sym: Symbols, n: int) -> Seq<LineView>
    decreases n,
{
    if n <= 0 {
        Seq::empty()
    } else {
        let cells = row_cells(row, widths, sym.hide_urls);
        row_lines_upto(prefix, widths, aligns, row, is_header, sym, n - 1)
            + seq![row_line(prefix, widths, aligns, cells, row.len() as int, n - 1, is_header, sym)]
    }
}

/// The lines of a row.
pub open spec fn row_lines(prefix: Seq<SpanView>, widths: Seq<usize>, aligns: Seq<TableAlignment>, row: Seq<Seq<SpanView>>, is_header: bool, sym: Symbols) -> Seq<LineView> {
    row_lines_upto(prefix, widths, aligns, row, is_header, sym, row_height(row_cells(row, widths, sym.hide_urls)) as int)
}

/// The lines of the first `k` data rows.
pub open spec fn body_lines(prefix: Seq<SpanView>, widths: Seq<usize>, aligns: Seq<TableAlignment>, rows: Seq<Seq<Seq<SpanView>>>, sym: Symbols, k: int) -> Seq<LineView>
    decreases k,
{
    if k <= 0 {
        Seq::empty()
    } else {
        body_lines(prefix, widths, aligns, rows, sym, k - 1) + row_lines(prefix, widths, aligns, rows[k - 1], false, sym)
    }
}

/// The output lines of a table: nothing without columns; else the top border, the header
/// row, the separator, the data rows and the bottom border, each prefixed for the nesting.
pub open spec fn table_spec(width: u16, header: Seq<Seq<SpanView>>, rows: Seq<Seq<Seq<SpanView>>>, aligns: Seq<TableAlignment>, nesting: Seq<MdLineContainer>, sym: Symbols) -> Seq<LineView> {
    let prefix = prefix_spans(nesting, sym);
    let avail = (width as usize).saturating_sub(spans_width(prefix));
    if header.len() == 0 {
        Seq::empty()
    } else {
        let widths = column_widths(header, rows, avail);
        seq![border_line(prefix, widths, sym.table_top_left@, sym.table_top_junction@, sym.table_top_right@, sym.table_horizontal@)]
            + row_lines(prefix, widths, aligns, header, true, sym)
            + seq![border_line(prefix, widths, sym.table_left_junction@, sym.table_cross@, sym.table_right_junction@, sym.table_horizontal@)]
            + body_lines(prefix, widths, aligns, rows, sym, rows.len() as int)
            + seq![border_line(prefix, widths, sym.table_bottom_left@, sym.table_bottom_junction@, sym.table_bottom_right@, sym.table_horizontal@)]
    }
}


/// The content width of column `i` (see [`column_base`]).
fn column_base_exec(header: &Vec<Vec<Span>>, rows: &Vec<Vec<Vec<Span>>>, i: usize) -> (w: usize)
    requires
        i < header@.len(),
    ensures
        w == column_base(cells_view(header@), rows_view(rows@), i as int, rows@.len() as int),
{
    proof { assert(cells_view(header@)[i as int] == spans_view(header@[i as int]@)); }
    let mut w = spans_columns(&header[i]);
    for k in 0..rows.len()
        invariant
            i < header@.len(),
            w == column_base(cells_view(header@), rows_view(rows@), i as int, k as int),
    {
        let row = &rows[k];
        proof {
            assert(rows_view(rows@)[k as int] == cells_view(row@));
        }
        if i < row.len() {
            proof { assert(cells_view(row@)[i as int] == spans_view(row@[i as int]@)); }
            let c = spans_columns(&row[i]);
            if c > w {
                w = c;
            }
        }
    }
    w
}

/// The (saturating) sum of widths (see [`sum_widths`]).
fn sum_widths_exec(v: &Vec<usize>) -> (s: usize)
    ensures
        s == sum_widths(v@),
{
    let mut s: usize = 0;
    for i in 0..v.len()
        invariant
            s == sum_widths(v@.take(i as int)),
    {
        assert(v@.take(i + 1).drop_last() =~= v@.take(i as int));
        s = s.saturating_add(v[i]);
    }
    assert(v@.take(v@.len() as int) =~= v@);
    s
}

/// Every width is at most the (saturating) sum.
proof fn lemma_sum_widths_bound(s: Seq<usize>, i: int)
    requires
        0 <= i < s.len(),
    ensures
        s[i] <= sum_widths(s),
    decreases s.len(),
{
    if i < s.len() - 1 {
        lemma_sum_widths_bound(s.drop_last(), i);
    }
}

proof fn lemma_scale_bound(w: usize, content: usize, total: usize)
    requires
        0 < total,
        w <= total,
    ensures
        (w as int * content as int) / (total as int) <= content,
{
    assert((w as int * content as int) <= (total as int * content as int)) by (nonlinear_arith)
        requires
            w <= total;
    assert((w as int * content as int) / (total as int) <= (total as int * content as int) / (total as int)) by (nonlinear_arith)
        requires
            (w as int * content as int) <= (total as int * content as int),
            0 < total;
    assert((total as int * content as int) / (total as int) == content as int) by (nonlinear_arith)
        requires
            0 < total;
}

/// The column widths of a table (see [`column_widths`]).
pub(crate) fn column_widths_exec(header: &Vec<Vec<Span>>, rows: &Vec<Vec<Vec<Span>>>, avail: usize) -> (r: Vec<usize>)
    requires
        header@.len() > 0,
    ensures
        r@ == column_widths(cells_view(header@), rows_view(rows@), avail),
{
    let ghost hv = cells_view(header@);
    let ghost rv = rows_view(rows@);
    let n = header.len();
    let mut base: Vec<usize> = Vec::new();
    for i in 0..n
        invariant
            n == header@.len(),
            hv == cells_view(header@),
            rv == rows_view(rows@),
            base@ == padded_widths(hv, rv).take(i as int),
    {
        let w = column_base_exec(header, rows, i).saturating_add(2);
        base.push(w);
        assert(base@ =~= padded_widths(hv, rv).take(i + 1));
    }
    assert(base@ =~= padded_widths(hv, rv));
    let total = sum_widths_exec(&base);
    if (total as u128) + (n as u128) + 1 > (avail as u128) && avail > n && avail - n > 1 {
        let content = avail - n - 1;
        proof {
            lemma_sum_widths_bound(base@, 0);
        }
        let mut r: Vec<usize> = Vec::new();
        for i in 0..n
            invariant
                n == base@.len(),
                total == sum_widths(base@),
                total >= 2,
                content == avail - n - 1,
                r@ =~= Seq::new(n as nat, |j: int| scale_width(base@[j], content, total)).take(i as int),
        {
            proof { lemma_sum_widths_bound(base@, i as int); lemma_scale_bound(base@[i as int], content, total); }
            let b = base[i];
            assert((b as int) * (content as int) <= 0xffff_ffff_ffff_ffffint * 0xffff_ffff_ffff_ffffint) by (nonlinear_arith)
                requires
                    0 <= b <= 0xffff_ffff_ffff_ffffint,
                    0 <= content <= 0xffff_ffff_ffff_ffffint;
            let q = ((b as u128) * (content as u128)) / (total as u128);
            let s: usize = if q < 3 { 3 } else { q as usize };
            r.push(s);
        }
        r
    } else {
        base
    }
}

/// A span of a table border (see [`border_span`]).
fn border_piece(c: String) -> (s: Span)
    ensures
        s@ == border_span(c@),
{
    Span::new(c, Modifier::new(Modifier::TABLE_BORDER))
}

/// A border line (see [`border_line`]).
fn border_line_exec(prefix: &Vec<Span>, widths: &Vec<usize>, left: &String, mid: &String, right: &String, horiz: &String) -> (l: Line)
    ensures
        l@ == border_line(spans_view(prefix@), widths@, left@, mid@, right@, horiz@),
{
    let mut spans = copy_spans(prefix);
    let ghost s0 = spans@;
    let first = border_piece(left.clone());
    spans.push(first);
    proof { lemma_spans_view_push(s0, first); }
    let n = widths.len();
    for i in 0..n
        invariant
            n == widths@.len(),
            spans_view(spans@) == spans_view(prefix@) + seq![border_span(left@)] + border_middle(widths@, mid@, horiz@, i as int),
    {
        let ghost s1 = spans@;
        let h = border_piece(repeat_str(horiz.as_str(), widths[i]));
        spans.push(h);
        proof { lemma_spans_view_push(s1, h); }
        if i + 1 < n {
            let ghost s2 = spans@;
            let m = border_piece(mid.clone());
            spans.push(m);
            proof { lemma_spans_view_push(s2, m); }
        }
        proof {
            assert(spans_view(spans@) =~= spans_view(prefix@) + seq![border_span(left@)] + border_middle(widths@, mid@, horiz@, i + 1));
        }
    }
    let ghost s3 = spans@;
    let last = border_piece(right.clone());
    spans.push(last);
    proof { lemma_spans_view_push(s3, last); }
    let l = Line { spans, kind: LineKind::TableBorder };
    assert(l@.spans =~= border_line(spans_view(prefix@), widths@, left@, mid@, right@, horiz@).spans);
    l
}


/// The lines of a cell wrapped to its column (see [`wrapped_cell`]).
fn wrap_cell(cell: &Vec<Span>, w: usize, hide_urls: bool) -> (r: Vec<Vec<Span>>)
    ensures
        cells_view(r@) == wrapped_cell(spans_view(cell@), w, hide_urls),
{
    let x = w.saturating_sub(2);
    let inner = if x < 1 { 1 } else { x };
    let lines = wrap_md_spans_lines(inner as u16, copy_spans(cell), hide_urls);
    if lines.len() == 0 {
        let mut r: Vec<Vec<Span>> = Vec::new();
        r.push(Vec::new());
        assert(spans_view(r@[0]@) =~= Seq::<SpanView>::empty());
        assert(cells_view(r@) =~= seq![Seq::<SpanView>::empty()]);
        r
    } else {
        lines
    }
}

/// The wrapped cells of a row (see [`row_cells`]).
fn wrap_row(row: &Vec<Vec<Span>>, widths: &Vec<usize>, hide_urls: bool) -> (r: Vec<Vec<Vec<Span>>>)
    ensures
        rows_view(r@) == row_cells(cells_view(row@), widths@, hide_urls),
{
    let mut r: Vec<Vec<Vec<Span>>> = Vec::new();
    for i in 0..row.len()
        invariant
            r@.len() == i,
            rows_view(r@) == row_cells(cells_view(row@), widths@, hide_urls).take(i as int),
    {
        let w = if i < widths.len() { widths[i] } else { 3 };
        proof { assert(cells_view(row@)[i as int] == spans_view(row@[i as int]@)); }
        let c = wrap_cell(&row[i], w, hide_urls);
        let ghost r0 = r@;
        r.push(c);
        assert(r@ =~= r0.push(c));
        assert(rows_view(r@)[i as int] == cells_view(c@));
        assert(row_cells(cells_view(row@), widths@, hide_urls)[i as int] == wrapped_cell(cells_view(row@)[i as int], width_at(widths@, i as int), hide_urls));
        assert(rows_view(r@) =~= row_cells(cells_view(row@), widths@, hide_urls).take(i + 1));
    }
    assert(row_cells(cells_view(row@), widths@, hide_urls).take(row@.len() as int) =~= row_cells(cells_view(row@), widths@, hide_urls));
    r
}

/// The number of lines of a row (see [`row_height`]).
fn row_height_exec(cells: &Vec<Vec<Vec<Span>>>) -> (h: usize)
    ensures
        h == row_height(rows_view(cells@)),
{
    if cells.len() == 0 {
        return 1;
    }
    let mut h: usize = 0;
    for k in 0..cells.len()
        invariant
            h == max_cell_lines(rows_view(cells@), k as int),
    {
        proof { assert(rows_view(cells@)[k as int].len() == cells@[k as int]@.len()); }
        if cells[k].len() > h {
            h = cells[k].len();
        }
    }
    h
}

/// A span with its link brackets mapped to the mapper's symbols.
fn map_wrapper(span: &Span, sym: &Symbols) -> (s: Span)
    ensures
        s@ == with_content(span@, mapped_wrapper_content(span@, *sym)),
{
    let mut s = span.copy();
    proof {
        reveal_strlit("[");
        reveal_strlit("(");
        assert("["@ =~= seq!['[']);
        assert("("@ =~= seq!['(']);
    }
    if span.modifiers.contains(Modifier::LINK_DESCRIPTION_WRAPPER) {
        s.content = if span.content == "[".to_owned() { sym.link_desc_open.clone() } else { sym.link_desc_close.clone() };
    } else if span.modifiers.contains(Modifier::LINK_URL_WRAPPER) {
        s.content = if span.content == "(".to_owned() { sym.link_url_open.clone() } else { sym.link_url_close.clone() };
    }
    s
}

/// Push a span and keep track of the views.
fn push_span(spans: &mut Vec<Span>, s: Span)
    ensures
        spans_view(final(spans)@) == spans_view(old(spans)@) + seq![s@],
{
    let ghost p = spans@;
    spans.push(s);
    proof {
        lemma_spans_view_push(p, s);
        assert(spans_view(p).push(s@) =~= spans_view(p) + seq![s@]);
    }
}

/// Push the spans of one cell line (see [`cell_spans`]).
fn push_cell(spans: &mut Vec<Span>, piece: &Vec<Span>, w: usize, a: TableAlignment, sym: &Symbols)
    ensures
        spans_view(final(spans)@) == spans_view(old(spans)@) + cell_spans(spans_view(piece@), w, a, *sym),
{
    let ghost s0 = spans_view(spans@);
    let content_width = spans_columns(piece);
    let padding_total = w.saturating_sub(2).saturating_sub(content_width);
    let (left_pad, right_pad) = match a {
        TableAlignment::Center => (padding_total / 2, padding_total - padding_total / 2),
        TableAlignment::Right => (padding_total, 0),
        TableAlignment::Left => (0, padding_total),
    };
    proof {
        reveal_strlit(" ");
        assert(" "@ =~= seq![' ']);
    }
    let mut left = " ".to_owned();
    left.append(repeat_str(" ", left_pad).as_str());
    push_span(spans, Span::new(left, Modifier::empty()));
    let ghost s1 = spans_view(spans@);
    for k in 0..piece.len()
        invariant
            spans_view(spans@) == s1 + mapped_cell(spans_view(piece@), *sym).take(k as int),
    {
        let m = map_wrapper(&piece[k], sym);
        push_span(spans, m);
        proof {
            assert(spans_view(piece@)[k as int] == piece@[k as int]@);
            assert(mapped_cell(spans_view(piece@), *sym).take(k + 1) =~= mapped_cell(spans_view(piece@), *sym).take(k as int) + seq![m@]);
        }
    }
    assert(mapped_cell(spans_view(piece@), *sym).take(piece@.len() as int) =~= mapped_cell(spans_view(piece@), *sym));
    let mut right = repeat_str(" ", right_pad);
    right.append(" ");
    push_span(spans, Span::new(right, Modifier::empty()));
    push_span(spans, border_piece(sym.table_vertical.clone()));
    assert(spans_view(spans@) =~= s0 + cell_spans(spans_view(piece@), w, a, *sym));
}

/// Build line number `line` of a row (see [`row_line`]).
fn row_line_exec(prefix: &Vec<Span>, widths: &Vec<usize>, aligns: &Vec<TableAlignment>, cells: &Vec<Vec<Vec<Span>>>, row_len: usize, line: usize, is_header: bool, sym: &Symbols) -> (l: Line)
    ensures
        l@ == row_line(spans_view(prefix@), widths@, aligns@, rows_view(cells@), row_len as int, line as int, is_header, *sym),
{
    let mut spans = copy_spans(prefix);
    push_span(&mut spans, border_piece(sym.table_vertical.clone()));
    let ghost s1 = spans_view(spans@);
    let empty: Vec<Span> = Vec::new();
    let n = widths.len();
    for i in 0..n
        invariant
            n == widths@.len(),
            empty@.len() == 0,
            spans_view(spans@) == s1 + row_line_cells(widths@, aligns@, rows_view(cells@), line as int, *sym, i as int),
    {
        let a = if i < aligns.len() { aligns[i] } else { TableAlignment::Left };
        let piece: &Vec<Span> = if i < cells.len() && line < cells[i].len() { &cells[i][line] } else { &empty };
        proof {
            if i < cells.len() && line < cells[i as int].len() {
                assert(rows_view(cells@)[i as int] == cells_view(cells@[i as int]@));
                assert(cells_view(cells@[i as int]@)[line as int] == spans_view(cells@[i as int]@[line as int]@));
            } else {
                assert(spans_view(empty@) =~= Seq::<SpanView>::empty());
            }
        }
        push_cell(&mut spans, piece, widths[i], a, sym);
        proof {
            assert(spans_view(spans@) =~= s1 + row_line_cells(widths@, aligns@, rows_view(cells@), line as int, *sym, i + 1));
        }
    }
    let ghost s2 = spans_view(spans@);
    let mut j = row_len;
    proof {
        assert(s2 + row_filler(widths@, j as int, n as int, *sym) =~= s1 + row_line_cells(widths@, aligns@, rows_view(cells@), line as int, *sym, n as int) + row_filler(widths@, row_len as int, n as int, *sym));
    }
    while j < n
        invariant
            n == widths@.len(),
            row_len <= j || j == row_len,
            spans_view(spans@) + row_filler(widths@, j as int, n as int, *sym) == s2 + row_filler(widths@, row_len as int, n as int, *sym),
        decreases n - j,
    {
        let ghost before = spans_view(spans@);
        push_span(&mut spans, Span::new(repeat_str(" ", widths[j]), Modifier::empty()));
        push_span(&mut spans, border_piece(sym.table_vertical.clone()));
        proof {
            reveal_strlit(" ");
            assert(" "@ =~= seq![' ']);
            assert(spans_view(spans@) + row_filler(widths@, j + 1, n as int, *sym) =~= before + row_filler(widths@, j as int, n as int, *sym));
        }
        j = j + 1;
    }
    proof {
        assert(row_filler(widths@, j as int, n as int, *sym) =~= Seq::<SpanView>::empty());
        assert(spans_view(spans@) =~= spans_view(spans@) + row_filler(widths@, j as int, n as int, *sym));
    }
    let l = Line { spans, kind: LineKind::TableRow { is_header } };
    assert(l@.spans =~= row_line(spans_view(prefix@), widths@, aligns@, rows_view(cells@), row_len as int, line as int, is_header, *sym).spans);
    l
}

/// Push the lines of a row (see [`row_lines`]).
fn push_row_lines(out: &mut Vec<Line>, prefix: &Vec<Span>, widths: &Vec<usize>, aligns: &Vec<TableAlignment>, row: &Vec<Vec<Span>>, is_header: bool, sym: &Symbols)
    ensures
        lines_view(final(out)@) == lines_view(old(out)@) + row_lines(spans_view(prefix@), widths@, aligns@, cells_view(row@), is_header, *sym),
{
    let cells = wrap_row(row, widths, sym.hide_urls);
    let h = row_height_exec(&cells);
    let ghost o0 = lines_view(out@);
    for line in 0..h
        invariant
            rows_view(cells@) == row_cells(cells_view(row@), widths@, sym.hide_urls),
            lines_view(out@) == o0 + row_lines_upto(spans_view(prefix@), widths@, aligns@, cells_view(row@), is_header, *sym, line as int),
    {
        let l = row_line_exec(prefix, widths, aligns, &cells, row.len(), line, is_header, sym);
        let ghost o = out@;
        out.push(l);
        proof {
            lemma_lines_view_push(o, l);
            assert(cells_view(row@).len() == row@.len());
        }
    }
}

/// Convert a table to output lines (see [`table_spec`]).
pub fn table_to_lines(width: u16, header: &Vec<Vec<Span>>, rows: &Vec<Vec<Vec<Span>>>, alignments: &Vec<TableAlignment>, nesting: &Vec<MdLineContainer>, sym: &Symbols) -> (r: Vec<Line>)
    ensures
        lines_view(r@) == table_spec(width, cells_view(header@), rows_view(rows@), alignments@, nesting@, *sym),
{
    let mut lines: Vec<Line> = Vec::new();
    let prefix = nesting_to_prefix_spans(nesting, sym);
    let prefix_width = spans_columns(&prefix);
    let available = (width as usize).saturating_sub(prefix_width);
    if header.len() == 0 {
        assert(lines_view(lines@) =~= Seq::<LineView>::empty());
        return lines;
    }
    let widths = column_widths_exec(header, rows, available);
    let top = border_line_exec(&prefix, &widths, &sym.table_top_left, &sym.table_top_junction, &sym.table_top_right, &sym.table_horizontal);
    lines.push(top);
    push_row_lines(&mut lines, &prefix, &widths, alignments, header, true, sym);
    let ghost o1 = lines@;
    let sep = border_line_exec(&prefix, &widths, &sym.table_left_junction, &sym.table_cross, &sym.table_right_junction, &sym.table_horizontal);
    lines.push(sep);
    proof { lemma_lines_view_push(o1, sep); }
    let ghost o2 = lines_view(lines@);
    for k in 0..rows.len()
        invariant
            lines_view(lines@) == o2 + body_lines(spans_view(prefix@), widths@, alignments@, rows_view(rows@), *sym, k as int),
    {
        proof { assert(rows_view(rows@)[k as int] == cells_view(rows@[k as int]@)); }
        push_row_lines(&mut lines, &prefix, &widths, alignments, &rows[k], false, sym);
    }
    let ghost o3 = lines@;
    let bottom = border_line_exec(&prefix, &widths, &sym.table_bottom_left, &sym.table_bottom_junction, &sym.table_bottom_right, &sym.table_horizontal);
    lines.push(bottom);
    proof { lemma_lines_view_push(o3, bottom); }
    assert(lines_view(lines@) =~= table_spec(width, cells_view(header@), rows_view(rows@), alignments@, nesting@, *sym));
    lines
}

} // verus!
