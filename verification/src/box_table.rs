//! Tables drawn with box-drawing borders, one line per row: the viewer's own table layout,
//! where cell text that does not fit its column is cut with an ellipsis.
use vstd::prelude::*;

use crate::lines::{spans_columns, spans_width};
use crate::markdown::TableAlignment;
use crate::model::post_incr_source_id;
use crate::modifier::Modifier;
use crate::pipeline::{bar_spans, MdModifier, MdNode};
use crate::span::{plain, spans_view, Span, SpanView};
use crate::style::{adding, plain_style, styled_view, Style, StyledSpan, StyledSpanView, TermColor, TextModifier};
use crate::table::{align_pads, alignment_at, cells_view, column_widths, column_widths_exec, rows_view, spaces, width_at};
use crate::text::{repeat_seq, repeat_str};
use crate::width::{display_width, str_width};

verus! {

/// A cell as plain spans, for measuring it.
pub open spec fn plain_cell(c: Seq<MdNode>) -> Seq<SpanView> {
    c.map_values(|n: MdNode| plain(n.content@, Modifier { bits: 0 }))
}

/// A row of cells as plain spans.
pub open spec fn plain_row(r: Seq<Vec<MdNode>>) -> Seq<Seq<SpanView>> {
    r.map_values(|c: Vec<MdNode>| plain_cell(c@))
}

/// Rows of cells as plain spans.
pub open spec fn plain_rows(rs: Seq<Vec<Vec<MdNode>>>) -> Seq<Seq<Seq<SpanView>>> {
    rs.map_values(|r: Vec<Vec<MdNode>>| plain_row(r@))
}

fn plain_cell_exec(c: &Vec<MdNode>) -> (r: Vec<Span>)
    ensures
        spans_view(r@) == plain_cell(c@),
{
    let mut r: Vec<Span> = Vec::new();
    for i in 0..c.len()
        invariant
            spans_view(r@) == plain_cell(c@).take(i as int),
    {
        let x = Span::from_string(c[i].content.clone());
        let ghost before = r@;
        r.push(x);
        proof {
            crate::span::lemma_spans_view_push(before, x);
            assert(x@ == plain_cell(c@)[i as int]);
            assert(plain_cell(c@).take(i + 1) =~= plain_cell(c@).take(i as int).push(x@));
        }
    }
    assert(plain_cell(c@).take(c@.len() as int) =~= plain_cell(c@));
    r
}

fn plain_row_exec(row: &Vec<Vec<MdNode>>) -> (r: Vec<Vec<Span>>)
    ensures
        cells_view(r@) == plain_row(row@),
{
    let mut r: Vec<Vec<Span>> = Vec::new();
    for i in 0..row.len()
        invariant
            cells_view(r@) == plain_row(row@).take(i as int),
    {
        let x = plain_cell_exec(&row[i]);
        let ghost before = r@;
        r.push(x);
        proof {
            assert(cells_view(r@) =~= cells_view(before).push(spans_view(x@)));
            assert(plain_row(row@).take(i + 1) =~= plain_row(row@).take(i as int).push(plain_cell(row@[i as int]@)));
        }
    }
    assert(plain_row(row@).take(row@.len() as int) =~= plain_row(row@));
    r
}

fn plain_rows_exec(rows: &Vec<Vec<Vec<MdNode>>>) -> (r: Vec<Vec<Vec<Span>>>)
    ensures
        rows_view(r@) == plain_rows(rows@),
{
    let mut r: Vec<Vec<Vec<Span>>> = Vec::new();
    for i in 0..rows.len()
        invariant
            rows_view(r@) == plain_rows(rows@).take(i as int),
    {
        let x = plain_row_exec(&rows[i]);
        let ghost before = r@;
        r.push(x);
        proof {
            assert(rows_view(r@) =~= rows_view(before).push(cells_view(x@)));
            assert(plain_rows(rows@).take(i + 1) =~= plain_rows(rows@).take(i as int).push(plain_row(rows@[i as int]@)));
        }
    }
    assert(plain_rows(rows@).take(rows@.len() as int) =~= plain_rows(rows@));
    r
}

/// The style of table borders.
pub open spec fn border_style() -> Style {
    Style { fg: Some(TermColor::Indexed(240)), ..plain_style() }
}

/// The style of header cells.
pub open spec fn header_style() -> Style {
    Style { fg: Some(TermColor::Indexed(255)), ..adding(plain_style(), TextModifier::BOLD) }
}

/// The style of a cell's node: the row's style, in italics or bold with the emphasis color,
/// and with the code colors.
pub open spec fn cell_node_style(base: Style, m: MdModifier) -> Style {
    let s1 = if m.has(MdModifier::EMPHASIS) { Style { fg: Some(TermColor::Indexed(220)), ..adding(base, TextModifier::ITALIC) } } else { base };
    let s2 = if m.has(MdModifier::STRONG_EMPHASIS) { Style { fg: Some(TermColor::Indexed(220)), ..adding(s1, TextModifier::BOLD) } } else { s1 };
    if m.has(MdModifier::CODE) { Style { fg: Some(TermColor::Indexed(203)), bg: Some(TermColor::Indexed(236)), ..s2 } } else { s2 }
}

/// The blockquote bars of `depth` levels, each followed by a space.
pub open spec fn box_prefix(depth: nat) -> Seq<StyledSpanView>
    decreases depth,
{
    if depth == 0 { Seq::empty() } else { box_prefix((depth - 1) as nat) + bar_spans((depth - 1) as nat, true) }
}

/// Text cut to fit `limit` columns: characters are kept while they fit, and an ellipsis
/// follows the last one kept; text that fits is kept whole.
pub open spec fn cut_from(cs: Seq<char>, limit: usize, i: int, width: int) -> Seq<char>
    decreases cs.len() - i,
{
    if i < 0 || i >= cs.len() {
        cs
    } else {
        let cw = display_width(seq![cs[i]]);
        if width + cw > limit { cs.take(i).push('…') } else { cut_from(cs, limit, i + 1, width + cw) }
    }
}

/// A node's text in a column with `inner` columns for content: cut to one column less than
/// that, with an ellipsis, when it is wider.
pub open spec fn fitted(cs: Seq<char>, inner: usize) -> Seq<char> {
    if display_width(cs) > inner { cut_from(cs, inner.saturating_sub(1), 0, 0) } else { cs }
}

/// The blockquote bars of `depth` levels (see [`box_prefix`]).
fn box_prefix_exec(depth: usize) -> (r: Vec<StyledSpan>)
    ensures
        styled_view(r@) == box_prefix(depth as nat),
{
    let mut r: Vec<StyledSpan> = Vec::new();
    for d in 0..depth
        invariant
            styled_view(r@) == box_prefix(d as nat),
    {
        let color: u8 = if d < 5 { 202 + d as u8 } else { 207 };
        proof {
            reveal_strlit("▌");
            reveal_strlit(" ");
            assert("▌"@ =~= seq!['▌']);
            assert(" "@ =~= seq![' ']);
        }
        let bar = StyledSpan::styled("▌".to_owned(), Style::new().fg(TermColor::Indexed(color)));
        let space = StyledSpan::raw(" ".to_owned());
        let ghost before = r@;
        proof {
            assert(bar@ == StyledSpanView { content: seq!['▌'], style: Style { fg: Some(crate::pipeline::bar_color(d as nat)), ..plain_style() } });
            assert(space@ == StyledSpanView { content: seq![' '], style: plain_style() });
        }
        r.push(bar);
        r.push(space);
        assert(styled_view(r@) =~= styled_view(before) + bar_spans(d as nat, true));
    }
    r
}

/// A node's text fitted to its column (see [`fitted`]).
fn fit_text(s: &String, inner: usize) -> (r: String)
    ensures
        r@ == fitted(s@, inner),
{
    if str_width(s.as_str()) <= inner {
        return s.clone();
    }
    let cs = crate::text::chars_of(s.as_str());
    let limit = inner.saturating_sub(1);
    assert(fitted(s@, inner) == cut_from(cs@, limit, 0, 0));
    let mut out = String::new();
    let mut width: usize = 0;
    let mut i: usize = 0;
    while i < cs.len()
        invariant
            i <= cs@.len(),
            cs@ == s@,
            width <= limit,
            out@ == cs@.take(i as int),
            cut_from(cs@, limit, 0, 0) == cut_from(cs@, limit, i as int, width as int),
            fitted(s@, inner) == cut_from(cs@, limit, 0, 0),
            display_width(s@) > inner,
        decreases cs@.len() - i,
    {
        let mut one = String::new();
        one.push(cs[i]);
        let cw = str_width(one.as_str());
        proof { assert(one@ =~= seq![cs@[i as int]]); }
        if cw > limit - width {
            out.push('…');
            proof {
                assert(out@ =~= cs@.take(i as int).push('…'));
                assert(display_width(seq![cs@[i as int]]) == cw);
                assert(cut_from(cs@, limit, i as int, width as int) == cs@.take(i as int).push('…'));
            }
            return out;
        }
        out.push(cs[i]);
        proof { assert(out@ =~= cs@.take(i + 1)); }
        width = width + cw;
        i = i + 1;
    }
    proof { assert(cs@.take(cs@.len() as int) =~= cs@); }
    out
}

/// A span of the table's borders.
pub open spec fn border(c: Seq<char>) -> StyledSpanView {
    StyledSpanView { content: c, style: border_style() }
}

/// A span with no style.
pub open spec fn raw_span(c: Seq<char>) -> StyledSpanView {
    StyledSpanView { content: c, style: plain_style() }
}

/// The nodes of a cell, each fitted to the column and styled over the row's style.
pub open spec fn cell_nodes(cell: Seq<MdNode>, inner: usize, base: Style) -> Seq<StyledSpanView> {
    cell.map_values(|n: MdNode| StyledSpanView { content: fitted(n.content@, inner), style: cell_node_style(base, n.extra) })
}

/// A cell in a column `w` wide: a space and the alignment's padding, the nodes, the rest of
/// the padding and a space, and the border.
pub open spec fn box_cell(cell: Seq<MdNode>, w: usize, a: TableAlignment, base: Style) -> Seq<StyledSpanView> {
    let inner = w.saturating_sub(2);
    let pad = inner.saturating_sub(spans_width(plain_cell(cell)));
    let (l, r) = align_pads(a, pad);
    seq![raw_span(seq![' '] + spaces(l as nat))] + cell_nodes(cell, inner, base)
        + seq![raw_span(spaces(r as nat) + seq![' ']), border(seq!['│'])]
}

/// The first `k` cells of a row.
pub open spec fn box_cells(cells: Seq<Vec<MdNode>>, widths: Seq<usize>, aligns: Seq<TableAlignment>, base: Style, k: int) -> Seq<StyledSpanView>
    decreases k,
{
    if k <= 0 || k > cells.len() {
        Seq::empty()
    } else {
        box_cells(cells, widths, aligns, base, k - 1) + box_cell(cells[k - 1]@, width_at(widths, k - 1), alignment_at(aligns, k - 1), base)
    }
}

/// Empty cells for the columns `from..to` that a short row does not have.
pub open spec fn box_filler(widths: Seq<usize>, from: int, to: int) -> Seq<StyledSpanView>
    decreases to - from,
{
    if from >= to {
        Seq::empty()
    } else {
        seq![raw_span(spaces(width_at(widths, from) as nat)), border(seq!['│'])] + box_filler(widths, from + 1, to)
    }
}

/// A row of the table, after the blockquote bars of `depth` levels.
pub open spec fn box_row(depth: nat, widths: Seq<usize>, aligns: Seq<TableAlignment>, cells: Seq<Vec<MdNode>>, base: Style) -> Seq<StyledSpanView> {
    box_prefix(depth) + seq![border(seq!['│'])] + box_cells(cells, widths, aligns, base, cells.len() as int)
        + box_filler(widths, cells.len() as int, widths.len() as int)
}

/// The horizontal lines of the first `k` columns, with the junction between columns.
pub open spec fn box_middle(widths: Seq<usize>, mid: char, k: int) -> Seq<StyledSpanView>
    decreases k,
{
    if k <= 0 || k > widths.len() {
        Seq::empty()
    } else {
        box_middle(widths, mid, k - 1) + seq![border(repeat_seq(seq!['─'], widths[k - 1] as nat))]
            + if k - 1 < widths.len() - 1 { seq![border(seq![mid])] } else { Seq::<StyledSpanView>::empty() }
    }
}

/// A border line of the table, with its corner and junction characters.
pub open spec fn box_border(depth: nat, widths: Seq<usize>, left: char, mid: char, right: char) -> Seq<StyledSpanView> {
    box_prefix(depth) + seq![border(seq![left])] + box_middle(widths, mid, widths.len() as int) + seq![border(seq![right])]
}

/// The data rows `rows[..k]`.
pub open spec fn box_body(depth: nat, widths: Seq<usize>, aligns: Seq<TableAlignment>, rows: Seq<Vec<Vec<MdNode>>>, k: int) -> Seq<Seq<StyledSpanView>>
    decreases k,
{
    if k <= 0 || k > rows.len() {
        Seq::empty()
    } else {
        box_body(depth, widths, aligns, rows, k - 1).push(box_row(depth, widths, aligns, rows[k - 1]@, plain_style()))
    }
}

/// The lines of a table inside `depth` blockquotes, `width` columns wide: the top border,
/// the header row in bold, a separator, the data rows and the bottom border; the column
/// widths are those of the content with a space on each side, scaled down to the width left
/// by the blockquote bars when they do not fit. A table without columns has no lines.
pub open spec fn box_table(width: u16, header: Seq<Vec<MdNode>>, rows: Seq<Vec<Vec<MdNode>>>, aligns: Seq<TableAlignment>, depth: nat) -> Seq<Seq<StyledSpanView>> {
    if header.len() == 0 {
        Seq::empty()
    } else {
        let avail = (width as usize).saturating_sub((depth * 2) as usize);
        let widths = column_widths(plain_row(header), plain_rows(rows), avail);
        seq![box_border(depth, widths, '┌', '┬', '┐'), box_row(depth, widths, aligns, header, header_style()), box_border(depth, widths, '├', '┼', '┤')]
            + box_body(depth, widths, aligns, rows, rows.len() as int)
            + seq![box_border(depth, widths, '└', '┴', '┘')]
    }
}

/// Append a styled span.
fn push_styled(out: &mut Vec<StyledSpan>, x: StyledSpan)
    ensures
        styled_view(final(out)@) == styled_view(old(out)@).push(x@),
{
    let ghost before = out@;
    out.push(x);
    assert(styled_view(out@) =~= styled_view(before).push(x@));
}

/// The one-character text `c`.
fn char_string(c: char) -> (s: String)
    ensures
        s@ == seq![c],
{
    let mut s = String::new();
    s.push(c);
    assert(s@ =~= seq![c]);
    s
}

/// The style of a cell's node (see [`cell_node_style`]).
fn cell_node_style_exec(base: Style, m: MdModifier) -> (s: Style)
    ensures
        s == cell_node_style(base, m),
{
    let s1 = if m.contains(MdModifier::EMPHASIS) { base.add_modifier(TextModifier::ITALIC).fg(TermColor::Indexed(220)) } else { base };
    let s2 = if m.contains(MdModifier::STRONG_EMPHASIS) { s1.add_modifier(TextModifier::BOLD).fg(TermColor::Indexed(220)) } else { s1 };
    if m.contains(MdModifier::CODE) { s2.fg(TermColor::Indexed(203)).bg(TermColor::Indexed(236)) } else { s2 }
}

/// Append a cell (see [`box_cell`]).
fn push_box_cell(out: &mut Vec<StyledSpan>, cell: &Vec<MdNode>, w: usize, a: TableAlignment, base: Style)
    ensures
        styled_view(final(out)@) == styled_view(old(out)@) + box_cell(cell@, w, a, base),
{
    let ghost start = styled_view(out@);
    let inner = w.saturating_sub(2);
    let cw = spans_columns(&plain_cell_exec(cell));
    let pad = inner.saturating_sub(cw);
    let (l, r): (usize, usize) = match a {
        TableAlignment::Center => (pad / 2, pad - pad / 2),
        TableAlignment::Right => (pad, 0),
        TableAlignment::Left => (0, pad),
    };
    proof {
        reveal_strlit(" ");
        assert(" "@ =~= seq![' ']);
    }
    let mut left = " ".to_owned();
    left.append(repeat_str(" ", l).as_str());
    push_styled(out, StyledSpan::raw(left));
    let ghost mid_start = styled_view(out@);
    for k in 0..cell.len()
        invariant
            styled_view(out@) == mid_start + cell_nodes(cell@, inner, base).take(k as int),
    {
        let node = &cell[k];
        let x = StyledSpan { content: fit_text(&node.content, inner), style: cell_node_style_exec(base, node.extra) };
        push_styled(out, x);
        assert(cell_nodes(cell@, inner, base).take(k + 1) =~= cell_nodes(cell@, inner, base).take(k as int).push(x@));
    }
    assert(cell_nodes(cell@, inner, base).take(cell@.len() as int) =~= cell_nodes(cell@, inner, base));
    let mut right = repeat_str(" ", r);
    right.append(" ");
    push_styled(out, StyledSpan::raw(right));
    proof {
        reveal_strlit("│");
        assert("│"@ =~= seq!['│']);
    }
    push_styled(out, StyledSpan::styled("│".to_owned(), Style::new().fg(TermColor::Indexed(240))));
    assert(styled_view(out@) =~= start + box_cell(cell@, w, a, base));
}

/// A row of the table (see [`box_row`]).
fn box_row_exec(depth: usize, widths: &Vec<usize>, aligns: &Vec<TableAlignment>, cells: &Vec<Vec<MdNode>>, base: Style) -> (r: Vec<StyledSpan>)
    ensures
        styled_view(r@) == box_row(depth as nat, widths@, aligns@, cells@, base),
{
    let mut out = box_prefix_exec(depth);
    proof {
        reveal_strlit("│");
        assert("│"@ =~= seq!['│']);
    }
    push_styled(&mut out, StyledSpan::styled("│".to_owned(), Style::new().fg(TermColor::Indexed(240))));
    let ghost head = styled_view(out@);
    for k in 0..cells.len()
        invariant
            styled_view(out@) == head + box_cells(cells@, widths@, aligns@, base, k as int),
    {
        let w = if k < widths.len() { widths[k] } else { 3 };
        let a = if k < aligns.len() { aligns[k] } else { TableAlignment::Left };
        push_box_cell(&mut out, &cells[k], w, a, base);
        assert(head + box_cells(cells@, widths@, aligns@, base, k + 1) =~= head + box_cells(cells@, widths@, aligns@, base, k as int) + box_cell(cells@[k as int]@, w, a, base));
    }
    let ghost mid = styled_view(out@);
    let mut i = cells.len();
    while i < widths.len()
        invariant
            cells@.len() <= i <= widths@.len() || (i == cells@.len() && i >= widths@.len()),
            mid + box_filler(widths@, cells@.len() as int, widths@.len() as int) == styled_view(out@) + box_filler(widths@, i as int, widths@.len() as int),
        decreases widths@.len() - i,
    {
        proof {
            reveal_strlit("│");
            reveal_strlit(" ");
            assert("│"@ =~= seq!['│']);
            assert(" "@ =~= seq![' ']);
        }
        push_styled(&mut out, StyledSpan::raw(repeat_str(" ", widths[i])));
        push_styled(&mut out, StyledSpan::styled("│".to_owned(), Style::new().fg(TermColor::Indexed(240))));
        proof {
            assert(box_filler(widths@, i as int, widths@.len() as int) =~= seq![raw_span(spaces(widths@[i as int] as nat)), border(seq!['│'])] + box_filler(widths@, i + 1, widths@.len() as int));
        }
        i = i + 1;
    }
    assert(styled_view(out@) =~= box_row(depth as nat, widths@, aligns@, cells@, base));
    out
}

proof fn lemma_box_body(depth: nat, widths: Seq<usize>, aligns: Seq<TableAlignment>, rows: Seq<Vec<Vec<MdNode>>>, m: int)
    requires
        0 <= m <= rows.len(),
    ensures
        box_body(depth, widths, aligns, rows, m).len() == m,
        forall|k: int| 0 <= k < m ==> (#[trigger] box_body(depth, widths, aligns, rows, m)[k]) == box_row(depth, widths, aligns, rows[k]@, plain_style()),
    decreases m,
{
    if m > 0 {
        lemma_box_body(depth, widths, aligns, rows, m - 1);
        let prev = box_body(depth, widths, aligns, rows, m - 1);
        assert forall|k: int| 0 <= k < m implies (#[trigger] box_body(depth, widths, aligns, rows, m)[k]) == box_row(depth, widths, aligns, rows[k]@, plain_style()) by {
            if k < m - 1 {
                assert(box_body(depth, widths, aligns, rows, m)[k] == prev[k]);
            }
        }
    }
}

/// A border line (see [`box_border`]).
fn box_border_exec(depth: usize, widths: &Vec<usize>, left: char, mid: char, right: char) -> (r: Vec<StyledSpan>)
    ensures
        styled_view(r@) == box_border(depth as nat, widths@, left, mid, right),
{
    let mut out = box_prefix_exec(depth);
    push_styled(&mut out, StyledSpan::styled(char_string(left), Style::new().fg(TermColor::Indexed(240))));
    let ghost head = styled_view(out@);
    let n = widths.len();
    for k in 0..n
        invariant
            n == widths@.len(),
            styled_view(out@) == head + box_middle(widths@, mid, k as int),
    {
        proof {
            reveal_strlit("─");
            assert("─"@ =~= seq!['─']);
        }
        push_styled(&mut out, StyledSpan::styled(repeat_str("─", widths[k]), Style::new().fg(TermColor::Indexed(240))));
        if k < n - 1 {
            push_styled(&mut out, StyledSpan::styled(char_string(mid), Style::new().fg(TermColor::Indexed(240))));
        }
        assert(head + box_middle(widths@, mid, k + 1) =~= styled_view(out@));
    }
    push_styled(&mut out, StyledSpan::styled(char_string(right), Style::new().fg(TermColor::Indexed(240))));
    out
}

/// The lines of a table (see [`box_table`]), each with the next id of the counter of
/// sources `source_id`.
pub fn table_to_events(
    source_id: &mut Option<usize>,
    width: u16,
    header: &Vec<Vec<MdNode>>,
    rows: &Vec<Vec<Vec<MdNode>>>,
    alignments: &Vec<TableAlignment>,
    blockquote_depth: usize,
) -> (r: Vec<(usize, Vec<StyledSpan>)>)
    requires
        blockquote_depth <= usize::MAX / 2,
        match *old(source_id) {
            Some(i) => i + rows@.len() + 5 < usize::MAX,
            None => rows@.len() + 5 < usize::MAX,
        },
    ensures
        r@.len() == box_table(width, header@, rows@, alignments@, blockquote_depth as nat).len(),
        forall|k: int| 0 <= k < r@.len() ==> styled_view((#[trigger] r@[k]).1@) == box_table(width, header@, rows@, alignments@, blockquote_depth as nat)[k],
        forall|k: int| 0 <= k < r@.len() ==> (#[trigger] r@[k]).0 == (match *old(source_id) {
            Some(i) => i + 1 + k,
            None => k,
        }),
        r@.len() == 0 ==> *final(source_id) == *old(source_id),
        r@.len() > 0 ==> *final(source_id) == Some(r@[r@.len() - 1].0),
{
    let ghost goal = box_table(width, header@, rows@, alignments@, blockquote_depth as nat);
    let ghost first: int = match *old(source_id) {
        Some(i) => i + 1,
        None => 0,
    };
    let mut out: Vec<(usize, Vec<StyledSpan>)> = Vec::new();
    let n = header.len();
    if n == 0 {
        return out;
    }
    let avail = (width as usize).saturating_sub(blockquote_depth * 2);
    let plain_header = plain_row_exec(header);
    let plain_body = plain_rows_exec(rows);
    let widths = column_widths_exec(&plain_header, &plain_body, avail);
    assert(widths@ == column_widths(plain_row(header@), plain_rows(rows@), avail));
    let mut lines: Vec<Vec<StyledSpan>> = Vec::new();
    lines.push(box_border_exec(blockquote_depth, &widths, '┌', '┬', '┐'));
    lines.push(box_row_exec(blockquote_depth, &widths, alignments, header, Style::new().add_modifier(TextModifier::BOLD).fg(TermColor::Indexed(255))));
    lines.push(box_border_exec(blockquote_depth, &widths, '├', '┼', '┤'));
    let ghost d = blockquote_depth as nat;
    let ghost top = lines@;
    assert(styled_view(top[0]@) == box_border(d, widths@, '┌', '┬', '┐'));
    assert(styled_view(top[1]@) == box_row(d, widths@, alignments@, header@, header_style()));
    assert(styled_view(top[2]@) == box_border(d, widths@, '├', '┼', '┤'));
    for k in 0..rows.len()
        invariant
            lines@.len() == 3 + k,
            forall|j: int| 0 <= j < 3 ==> lines@[j] == top[j],
            top.len() == 3,
            forall|j: int| 0 <= j < k ==> styled_view(#[trigger] lines@[3 + j]@) == box_row(blockquote_depth as nat, widths@, alignments@, rows@[j]@, plain_style()),
            widths@ == column_widths(plain_row(header@), plain_rows(rows@), avail),
    {
        let ghost before = lines@;
        lines.push(box_row_exec(blockquote_depth, &widths, alignments, &rows[k], Style::new()));
        proof {
            assert(forall|j: int| 0 <= j < before.len() ==> lines@[j] == before[j]);
        }
    }
    lines.push(box_border_exec(blockquote_depth, &widths, '└', '┴', '┘'));
    proof {
        lemma_box_body(blockquote_depth as nat, widths@, alignments@, rows@, rows@.len() as int);
        let body = box_body(blockquote_depth as nat, widths@, alignments@, rows@, rows@.len() as int);
        let head = seq![box_border(d, widths@, '┌', '┬', '┐'), box_row(d, widths@, alignments@, header@, header_style()), box_border(d, widths@, '├', '┼', '┤')];
        let tail = seq![box_border(d, widths@, '└', '┴', '┘')];
        assert(goal == head + body + tail);
        assert(styled_view(lines@[3 + rows@.len() as int]@) == tail[0]);
        assert(goal.len() == lines@.len());
        assert forall|j: int| 0 <= j < lines@.len() implies styled_view(#[trigger] lines@[j]@) == goal[j] by {
            if j < 3 {
                assert(goal[j] == head[j]);
                assert(lines@[j] == top[j]);
            } else if j < 3 + rows@.len() {
                assert(goal[j] == body[j - 3]);
                assert(styled_view(lines@[3 + (j - 3)]@) == body[j - 3]);
            } else {
                assert(goal[j] == tail[0]);
            }
        }
    }
    let ghost snap = lines@;
    let mut it = lines.into_iter();
    for line in iter: it
        invariant
            iter.seq() == snap,
            snap.len() == goal.len(),
            out@.len() == iter.index(),
            forall|k: int| 0 <= k < out@.len() ==> (#[trigger] out@[k]).1 == snap[k],
            forall|k: int| 0 <= k < out@.len() ==> (#[trigger] out@[k]).0 == first + k,
            out@.len() == 0 ==> *source_id == *old(source_id),
            out@.len() > 0 ==> *source_id == Some(out@[out@.len() - 1].0),
            first + snap.len() < usize::MAX,
            first == match *old(source_id) {
                Some(i) => i + 1,
                None => 0,
            },
    {
        let ghost before = out@;
        let id = post_incr_source_id(source_id);
        out.push((id, line));
        proof {
            assert(forall|k: int| 0 <= k < before.len() ==> out@[k] == before[k]);
        }
    }
    out
}

} // verus!
