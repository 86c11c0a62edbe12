//! From markdown sections to output lines: decorators, prefixes for nesting, code blocks,
//! tables, and the blank lines between sections.
use vstd::prelude::*;

use crate::mapper::{BulletStyle, Symbols};
use crate::markdown::{MdContainer, MdContainerView, ListMarkerView, nesting_view};
use crate::modifier::Modifier;
use crate::span::{Span, SpanView, spans_view, plain, lemma_spans_view_push, lemma_spans_view_add, copy_spans};
use crate::text::{repeat_seq, repeat_str, chars_of, trim_end_seq, trim_end_inplace, text_lines, split_lines, all_ws, is_blank_str};
use crate::link_tracker::{TrackedUrl, TrackedUrlView, urls_view};
use crate::wrap::{textwrap_lines, wrap_text, strings_view, WrappedLine, WrappedLineView, wrapped_view};
use crate::width::{display_width, str_width};

verus! {

/// The decimal digits of `n`.
pub open spec fn decimal(n: nat) -> Seq<char>
    decreases n,
{
    if n < 10 {
        seq![digit_char(n)]
    } else {
        decimal(n / 10) + seq![digit_char(n % 10)]
    }
}

pub open spec fn digit_char(d: nat) -> char {
    if d == 0 { '0' } else if d == 1 { '1' } else if d == 2 { '2' } else if d == 3 { '3' } else if d == 4 { '4' }
    else if d == 5 { '5' } else if d == 6 { '6' } else if d == 7 { '7' } else if d == 8 { '8' } else { '9' }
}

fn digit(d: u32) -> (c: char)
    requires
        d < 10,
    ensures
        c == digit_char(d as nat),
{
    if d == 0 { '0' } else if d == 1 { '1' } else if d == 2 { '2' } else if d == 3 { '3' } else if d == 4 { '4' }
    else if d == 5 { '5' } else if d == 6 { '6' } else if d == 7 { '7' } else if d == 8 { '8' } else { '9' }
}

/// The decimal representation of `n`.
pub fn decimal_string(n: u32) -> (s: String)
    ensures
        s@ == decimal(n as nat),
    decreases n,
{
    if n < 10 {
        let mut s = String::new();
        s.push(digit(n));
        s
    } else {
        let mut s = decimal_string(n / 10);
        s.push(digit(n % 10));
        s
    }
}

/// Type of list marker.
#[derive(Debug, Clone, Copy, PartialEq, Eq, Structural)]
pub enum ListMarker {
    Unordered(BulletStyle),
    Ordered(u32),
    TaskUnchecked(BulletStyle),
    TaskChecked(BulletStyle),
}

/// A simplified nesting container.
#[derive(Debug, Clone, Copy, PartialEq, Eq, Structural)]
pub enum MdLineContainer {
    /// Blockquote level.
    Blockquote,
    /// List item with marker type. `continuation` is true for content after the first
    /// paragraph of a list item, which shows as indentation instead of the marker.
    ListItem { marker: ListMarker, continuation: bool },
}

/// The text of a list marker.
pub open spec fn marker_text(m: ListMarker, sym: Symbols) -> Seq<char> {
    match m {
        ListMarker::Unordered(b) => sym.bullet(b),
        ListMarker::Ordered(n) => decimal(n as nat) + sym.ordered_marker_suffix@,
        ListMarker::TaskChecked(b) => sym.bullet(b) + sym.task_checked@,
        ListMarker::TaskUnchecked(b) => sym.bullet(b) + sym.task_unchecked@,
    }
}

/// The columns of a list marker.
pub open spec fn marker_width(m: ListMarker, sym: Symbols) -> usize {
    match m {
        ListMarker::Unordered(b) => display_width(sym.bullet(b)),
        ListMarker::Ordered(n) => display_width(decimal(n as nat) + sym.ordered_marker_suffix@),
        ListMarker::TaskChecked(b) => display_width(sym.bullet(b)).saturating_add(display_width(sym.task_checked@)),
        ListMarker::TaskUnchecked(b) => display_width(sym.bullet(b)).saturating_add(display_width(sym.task_unchecked@)),
    }
}

/// The marker span of a list item is as wide as the item's marker columns: for bullets and
/// numbers always, and for task markers where the widths of the bullet and of the task mark
/// add up to the width of the two together (the display width is measured, not added, so
/// a ligature or combining character across the two could break it).
pub proof fn marker_span_is_marker_wide(m: ListMarker, sym: Symbols)
    requires
        m matches ListMarker::TaskChecked(b) ==> display_width(sym.bullet(b) + sym.task_checked@) == display_width(sym.bullet(b)) + display_width(sym.task_checked@),
        m matches ListMarker::TaskUnchecked(b) ==> display_width(sym.bullet(b) + sym.task_unchecked@) == display_width(sym.bullet(b)) + display_width(sym.task_unchecked@),
    ensures
        display_width(marker_text(m, sym)) == marker_width(m, sym),
        display_width(prefix_span(MdLineContainer::ListItem { marker: m, continuation: false }, 0, 0, sym).content) == marker_width(m, sym),
{
}

impl ListMarker {
    /// The text of this marker with the given symbols.
    pub fn text(&self, sym: &Symbols) -> (s: String)
        ensures
            s@ == marker_text(*self, *sym),
    {
        match self {
            ListMarker::Unordered(b) => sym.unordered_bullet(*b).clone(),
            ListMarker::Ordered(n) => {
                let mut s = decimal_string(*n);
                s.append(sym.ordered_marker_suffix.as_str());
                s
            },
            ListMarker::TaskChecked(b) => {
                let mut s = sym.unordered_bullet(*b).clone();
                s.append(sym.task_checked.as_str());
                s
            },
            ListMarker::TaskUnchecked(b) => {
                let mut s = sym.unordered_bullet(*b).clone();
                s.append(sym.task_unchecked.as_str());
                s
            },
        }
    }

    /// Calculate the marker width with the given symbols.
    pub fn width(&self, sym: &Symbols) -> (w: usize)
        ensures
            w == marker_width(*self, *sym),
    {
        match self {
            ListMarker::Unordered(b) => str_width(sym.unordered_bullet(*b).as_str()),
            ListMarker::Ordered(n) => {
                let mut s = decimal_string(*n);
                s.append(sym.ordered_marker_suffix.as_str());
                str_width(s.as_str())
            },
            ListMarker::TaskChecked(b) => str_width(sym.unordered_bullet(*b).as_str()).saturating_add(str_width(sym.task_checked.as_str())),
            ListMarker::TaskUnchecked(b) => str_width(sym.unordered_bullet(*b).as_str()).saturating_add(str_width(sym.task_unchecked.as_str())),
        }
    }
}


pub open spec fn is_ascii_digit(c: char) -> bool {
    '0' <= c && c <= '9'
}

/// The number of ASCII digits at the start of `s`.
pub open spec fn lead_digit_count(s: Seq<char>) -> int
    decreases s.len(),
{
    if s.len() > 0 && is_ascii_digit(s[0]) {
        1 + lead_digit_count(s.drop_first())
    } else {
        0
    }
}

/// `x * 10`, saturating at `u32::MAX`.
pub open spec fn sat_mul10(x: u32) -> u32 {
    if x * 10 > u32::MAX { u32::MAX } else { (x * 10) as u32 }
}

fn sat_mul10_exec(x: u32) -> (r: u32)
    ensures
        r == sat_mul10(x),
{
    if x > u32::MAX / 10 { u32::MAX } else { x * 10 }
}

/// The value of the first `k` digits of `s`, saturating at `u32::MAX`.
pub open spec fn digits_value(s: Seq<char>, k: int) -> u32
    decreases k,
{
    if k <= 0 {
        0
    } else {
        sat_mul10(digits_value(s, k - 1)).saturating_add(((s[k - 1] as u32) - ('0' as u32)) as u32)
    }
}

/// The line marker of a list item marker as written: a task marker keeps the bullet, a
/// number gives an ordered marker (numbered at least 1), anything else a bullet (a dash when
/// unknown).
pub open spec fn list_marker_of(m: ListMarkerView) -> ListMarker {
    let first = if m.original.len() > 0 { m.original[0] } else { '-' };
    let bullet = if first == '*' { BulletStyle::Star } else if first == '+' { BulletStyle::Plus } else { BulletStyle::Dash };
    match m.task {
        Some(true) => ListMarker::TaskChecked(bullet),
        Some(false) => ListMarker::TaskUnchecked(bullet),
        None => if is_ascii_digit(first) {
            let num = digits_value(m.original, lead_digit_count(m.original));
            ListMarker::Ordered(if num == 0 { 1 } else { num })
        } else {
            ListMarker::Unordered(bullet)
        },
    }
}

/// The index of the last list item in a nesting, or -1.
pub open spec fn last_item_index(n: Seq<MdContainerView>) -> int
    decreases n.len(),
{
    if n.len() == 0 {
        -1
    } else if n.last() is ListItem {
        n.len() - 1
    } else {
        last_item_index(n.drop_last())
    }
}

/// The line nesting of the first `k` containers of `n`: lists give nothing visible, and only
/// the innermost list item can be a continuation.
pub open spec fn convert_nesting_spec(n: Seq<MdContainerView>, cont: bool, k: int) -> Seq<MdLineContainer>
    decreases k,
{
    if k <= 0 {
        Seq::empty()
    } else {
        let prev = convert_nesting_spec(n, cont, k - 1);
        match n[k - 1] {
            MdContainerView::Blockquote => prev.push(MdLineContainer::Blockquote),
            MdContainerView::ListItem(m) => prev.push(MdLineContainer::ListItem {
                marker: list_marker_of(m),
                continuation: cont && last_item_index(n) == k - 1,
            }),
            MdContainerView::List(_) => prev,
        }
    }
}

/// The line marker of a list item marker (see [`list_marker_of`]).
fn list_marker_from(m: &crate::markdown::ListMarker) -> (r: ListMarker)
    ensures
        r == list_marker_of(m@),
{
    let chars = chars_of(m.original.as_str());
    let first = if chars.len() > 0 { chars[0] } else { '-' };
    let bullet = match BulletStyle::from_char(first) {
        Some(b) => b,
        None => BulletStyle::Dash,
    };
    match m.task {
        Some(checked) => if checked { ListMarker::TaskChecked(bullet) } else { ListMarker::TaskUnchecked(bullet) },
        None => {
            if '0' <= first && first <= '9' {
                let mut num: u32 = 0;
                let mut i: usize = 0;
                proof {
                    assert(chars@.skip(0) =~= chars@);
                }
                while i < chars.len() && '0' <= chars[i] && chars[i] <= '9'
                    invariant
                        i <= chars@.len(),
                        chars@ == m@.original,
                        num == digits_value(chars@, i as int),
                        lead_digit_count(chars@) == i + lead_digit_count(chars@.skip(i as int)),
                    decreases chars.len() - i,
                {
                    let d = (chars[i] as u32) - ('0' as u32);
                    num = sat_mul10_exec(num).saturating_add(d);
                    proof {
                        assert(chars@.skip(i as int).drop_first() =~= chars@.skip(i + 1));
                    }
                    i = i + 1;
                }
                proof {
                    if i < chars@.len() {
                        assert(chars@.skip(i as int)[0] == chars@[i as int]);
                    } else {
                        assert(chars@.skip(i as int).len() == 0);
                    }
                }
                ListMarker::Ordered(if num == 0 { 1 } else { num })
            } else {
                ListMarker::Unordered(bullet)
            }
        },
    }
}

/// The index of the last list item of `n`, if any.
pub fn last_list_item(n: &Vec<MdContainer>) -> (r: Option<usize>)
    ensures
        match r {
            Some(i) => i == last_item_index(nesting_view(n@)),
            None => last_item_index(nesting_view(n@)) == -1,
        },
{
    let mut i = n.len();
    assert(nesting_view(n@).take(n@.len() as int) =~= nesting_view(n@));
    while i > 0
        invariant
            i <= n@.len(),
            last_item_index(nesting_view(n@)) == last_item_index(nesting_view(n@).take(i as int)),
        decreases i,
    {
        proof {
            assert(nesting_view(n@).take(i as int).drop_last() =~= nesting_view(n@).take(i - 1));
            assert(nesting_view(n@).take(i as int).last() == n@[i - 1]@);
        }
        if let MdContainer::ListItem(_) = &n[i - 1] {
            return Some(i - 1);
        }
        i = i - 1;
    }
    None
}

/// Convert markdown nesting to line nesting (see [`convert_nesting_spec`]).
pub fn convert_nesting(md_nesting: &Vec<MdContainer>, is_list_continuation: bool) -> (r: Vec<MdLineContainer>)
    ensures
        r@ == convert_nesting_spec(nesting_view(md_nesting@), is_list_continuation, md_nesting@.len() as int),
{
    let mut nesting: Vec<MdLineContainer> = Vec::new();
    let last = last_list_item(md_nesting);
    proof {
        assert(nesting_view(md_nesting@).take(md_nesting@.len() as int) =~= nesting_view(md_nesting@));
    }
    for idx in 0..md_nesting.len()
        invariant
            nesting@ == convert_nesting_spec(nesting_view(md_nesting@), is_list_continuation, idx as int),
            match last {
                Some(i) => i == last_item_index(nesting_view(md_nesting@)),
                None => last_item_index(nesting_view(md_nesting@)) == -1,
            },
    {
        match &md_nesting[idx] {
            MdContainer::Blockquote(_) => {
                nesting.push(MdLineContainer::Blockquote);
            },
            MdContainer::ListItem(marker) => {
                let list_marker = list_marker_from(marker);
                let continuation = is_list_continuation && match last {
                    Some(i) => i == idx,
                    None => false,
                };
                nesting.push(MdLineContainer::ListItem { marker: list_marker, continuation });
            },
            MdContainer::List(_) => {},
        }
    }
    nesting
}


/// The index of the last list item in a line nesting, or -1.
pub open spec fn last_line_item(n: Seq<MdLineContainer>) -> int
    decreases n.len(),
{
    if n.len() == 0 {
        -1
    } else if n.last() is ListItem {
        n.len() - 1
    } else {
        last_line_item(n.drop_last())
    }
}

/// The prefix span of the `i`-th container of a nesting whose last list item is at `last`:
/// a blockquote bar, the marker of the innermost list item (unless the line continues the
/// item), and indentation as wide as the marker for the others.
pub open spec fn prefix_span(c: MdLineContainer, i: int, last: int, sym: Symbols) -> SpanView {
    match c {
        MdLineContainer::Blockquote => plain(sym.blockquote_bar@, Modifier { bits: Modifier::BLOCKQUOTE_BAR }),
        MdLineContainer::ListItem { marker, continuation } => if i == last && !continuation {
            plain(marker_text(marker, sym), Modifier { bits: Modifier::LIST_MARKER })
        } else {
            plain(repeat_seq(seq![' '], marker_width(marker, sym) as nat), Modifier { bits: 0 })
        },
    }
}

/// The prefix spans of a line with the given nesting.
pub open spec fn prefix_spans(n: Seq<MdLineContainer>, sym: Symbols) -> Seq<SpanView> {
    Seq::new(n.len(), |i: int| prefix_span(n[i], i, last_line_item(n), sym))
}

/// The index of the last list item of a line nesting, if any.
fn last_line_list_item(n: &Vec<MdLineContainer>) -> (r: Option<usize>)
    ensures
        match r {
            Some(i) => i == last_line_item(n@),
            None => last_line_item(n@) == -1,
        },
{
    let mut i = n.len();
    assert(n@.take(n@.len() as int) =~= n@);
    while i > 0
        invariant
            i <= n@.len(),
            last_line_item(n@) == last_line_item(n@.take(i as int)),
        decreases i,
    {
        proof {
            assert(n@.take(i as int).drop_last() =~= n@.take(i - 1));
        }
        if let MdLineContainer::ListItem { .. } = n[i - 1] {
            return Some(i - 1);
        }
        i = i - 1;
    }
    None
}

/// Build the prefix spans of a line from its nesting (see [`prefix_spans`]).
pub fn nesting_to_prefix_spans(nesting: &Vec<MdLineContainer>, sym: &Symbols) -> (r: Vec<Span>)
    ensures
        spans_view(r@) == prefix_spans(nesting@, *sym),
{
    let mut spans: Vec<Span> = Vec::new();
    let last = last_line_list_item(nesting);
    let ghost lastv = last_line_item(nesting@);
    for i in 0..nesting.len()
        invariant
            spans_view(spans@) == prefix_spans(nesting@, *sym).take(i as int),
            match last {
                Some(k) => k == lastv,
                None => lastv == -1,
            },
            lastv == last_line_item(nesting@),
    {
        let sp = match nesting[i] {
            MdLineContainer::Blockquote => Span::new(sym.blockquote_bar.clone(), Modifier::new(Modifier::BLOCKQUOTE_BAR)),
            MdLineContainer::ListItem { marker, continuation } => {
                let is_last = match last {
                    Some(k) => k == i,
                    None => false,
                };
                if is_last && !continuation {
                    Span::new(marker.text(sym), Modifier::new(Modifier::LIST_MARKER))
                } else {
                    let w = marker.width(sym);
                    proof {
                        reveal_strlit(" ");
                        assert(" "@ =~= seq![' ']);
                    }
                    Span::new(repeat_str(" ", w), Modifier::empty())
                }
            },
        };
        let ghost prev = spans@;
        spans.push(sp);
        proof {
            lemma_spans_view_push(prev, sp);
            assert(prefix_spans(nesting@, *sym).take(i + 1) =~= prefix_spans(nesting@, *sym).take(i as int).push(sp@));
        }
    }
    assert(prefix_spans(nesting@, *sym).take(nesting@.len() as int) =~= prefix_spans(nesting@, *sym));
    spans
}


/// Which decorated styles the previous span had: emphasis, strong, code, strikethrough.
pub struct DecoFlags {
    pub emphasis: bool,
    pub strong: bool,
    pub code: bool,
    pub strikethrough: bool,
}

/// A closing decorator when a style ends (and the symbol is not empty).
pub open spec fn close_piece(prev: bool, present: bool, close: Seq<char>, w: u32) -> Seq<SpanView> {
    if prev && !present && close.len() > 0 {
        seq![plain(close, Modifier { bits: w })]
    } else {
        Seq::empty()
    }
}

/// An opening decorator when a style starts (and the symbol is not empty); the first one
/// inserted takes over the start of a source line of the content span.
pub open spec fn open_piece(starts: bool, open: Seq<char>, w: u32, nl: bool, transferred: bool) -> (Seq<SpanView>, bool) {
    if starts && open.len() > 0 {
        if nl && !transferred {
            (seq![plain(open, Modifier { bits: w | Modifier::NEW_LINE })], true)
        } else {
            (seq![plain(open, Modifier { bits: w })], transferred)
        }
    } else {
        (Seq::empty(), transferred)
    }
}

/// The content of a span once link wrappers are mapped to the mapper's symbols.
pub open spec fn mapped_wrapper_content(v: SpanView, sym: Symbols) -> Seq<char> {
    if v.modifiers.has(Modifier::LINK_DESCRIPTION_WRAPPER) {
        if v.content == seq!['['] { sym.link_desc_open@ } else { sym.link_desc_close@ }
    } else if v.modifiers.has(Modifier::LINK_URL_WRAPPER) {
        if v.content == seq!['('] { sym.link_url_open@ } else { sym.link_url_close@ }
    } else {
        v.content
    }
}

/// The spans before a decorated span: `out` (its last span trimmed at the end when the span
/// starts a source line), closing decorators of styles that end, opening decorators of styles
/// that start; and whether an opening decorator took over the start of the source line.
pub open spec fn deco_head(out: Seq<SpanView>, f: DecoFlags, v: SpanView, sym: Symbols) -> (Seq<SpanView>, bool) {
    let m = v.modifiers;
    let he = m.has(Modifier::EMPHASIS);
    let hs = m.has(Modifier::STRONG_EMPHASIS);
    let hc = m.has(Modifier::CODE);
    let ht = m.has(Modifier::STRIKETHROUGH);
    let nl = m.has(Modifier::NEW_LINE);
    let out1 = if nl && out.len() > 0 {
        out.update(out.len() - 1, SpanView { content: trim_end_seq(out.last().content), modifiers: out.last().modifiers, source: out.last().source })
    } else {
        out
    };
    let c1 = close_piece(f.code, hc, sym.code_close@, Modifier::CODE_WRAPPER);
    let c2 = close_piece(f.strikethrough, ht, sym.strikethrough_close@, Modifier::STRIKETHROUGH_WRAPPER);
    let c3 = close_piece(f.strong, hs, sym.strong_close@, Modifier::STRONG_EMPHASIS_WRAPPER);
    let c4 = close_piece(f.emphasis, he, sym.emphasis_close@, Modifier::EMPHASIS_WRAPPER);
    let (o1, t1) = open_piece(he && !f.emphasis, sym.emphasis_open@, Modifier::EMPHASIS_WRAPPER, nl, false);
    let (o2, t2) = open_piece(hs && !f.strong, sym.strong_open@, Modifier::STRONG_EMPHASIS_WRAPPER, nl, t1);
    let (o3, t3) = open_piece(ht && !f.strikethrough, sym.strikethrough_open@, Modifier::STRIKETHROUGH_WRAPPER, nl, t2);
    let (o4, t4) = open_piece(hc && !f.code, sym.code_open@, Modifier::CODE_WRAPPER, nl, t3);
    (out1 + c1 + c2 + c3 + c4 + o1 + o2 + o3 + o4, t4)
}

/// The decorated span itself, if it is kept: without the start of a source line if an
/// opening decorator took it, with link brackets mapped, and left out if it is a hidden URL.
pub open spec fn deco_tail(v: SpanView, transferred: bool, sym: Symbols) -> Seq<SpanView> {
    let m1 = if transferred { Modifier { bits: v.modifiers.bits & !Modifier::NEW_LINE } } else { v.modifiers };
    let v1 = SpanView { content: mapped_wrapper_content(v, sym), modifiers: m1, source: v.source };
    if sym.hide_urls && m1.is_hideable_url() { Seq::empty() } else { seq![v1] }
}

/// Decorating one span after the spans before it gave `out` and left flags `f`.
pub open spec fn deco_step(out: Seq<SpanView>, f: DecoFlags, v: SpanView, sym: Symbols) -> (Seq<SpanView>, DecoFlags) {
    let m = v.modifiers;
    let (head, t) = deco_head(out, f, v, sym);
    (head + deco_tail(v, t, sym), DecoFlags {
        emphasis: m.has(Modifier::EMPHASIS),
        strong: m.has(Modifier::STRONG_EMPHASIS),
        code: m.has(Modifier::CODE),
        strikethrough: m.has(Modifier::STRIKETHROUGH),
    })
}

/// Decorating the first `n` spans.
pub open spec fn deco_fold(spans: Seq<SpanView>, n: int, sym: Symbols) -> (Seq<SpanView>, DecoFlags)
    decreases n,
{
    if n <= 0 {
        (Seq::empty(), DecoFlags { emphasis: false, strong: false, code: false, strikethrough: false })
    } else {
        let (out, f) = deco_fold(spans, n - 1, sym);
        deco_step(out, f, spans[n - 1], sym)
    }
}

/// The spans with decorators: the mapper's markers around emphasis, strong emphasis, code and
/// strikethrough, link brackets mapped to its symbols, and hidden URLs left out.
pub open spec fn apply_decorators_spec(spans: Seq<SpanView>, sym: Symbols) -> Seq<SpanView> {
    let (out, f) = deco_fold(spans, spans.len() as int, sym);
    out + close_piece(f.code, false, sym.code_close@, Modifier::CODE_WRAPPER)
        + close_piece(f.strikethrough, false, sym.strikethrough_close@, Modifier::STRIKETHROUGH_WRAPPER)
        + close_piece(f.strong, false, sym.strong_close@, Modifier::STRONG_EMPHASIS_WRAPPER)
        + close_piece(f.emphasis, false, sym.emphasis_close@, Modifier::EMPHASIS_WRAPPER)
}

/// No span is a URL part that hidden URLs leave out.
pub open spec fn no_hideable_url(s: Seq<SpanView>) -> bool {
    forall|k: int| 0 <= k < s.len() ==> !(#[trigger] s[k]).modifiers.is_hideable_url()
}

proof fn lemma_no_hideable_add(a: Seq<SpanView>, b: Seq<SpanView>)
    requires
        no_hideable_url(a),
        no_hideable_url(b),
    ensures
        no_hideable_url(a + b),
{
    assert forall|k: int| 0 <= k < (a + b).len() implies !(#[trigger] (a + b)[k]).modifiers.is_hideable_url() by {
        if k < a.len() {
            assert((a + b)[k] == a[k]);
        } else {
            assert((a + b)[k] == b[k - a.len()]);
        }
    }
}

proof fn lemma_decorators_not_hideable(w: u32, nl: bool, prev: bool, present: bool, starts: bool, transferred: bool, c: Seq<char>)
    requires
        w == Modifier::CODE_WRAPPER || w == Modifier::STRIKETHROUGH_WRAPPER || w == Modifier::STRONG_EMPHASIS_WRAPPER
            || w == Modifier::EMPHASIS_WRAPPER,
    ensures
        no_hideable_url(close_piece(prev, present, c, w)),
        no_hideable_url(open_piece(starts, c, w, nl, transferred).0),
{
    assert((Modifier::LINK_URL | Modifier::LINK_URL_WRAPPER) == 0x180u32) by (bit_vector);
    assert((w == 0x20000u32 || w == 0x80000u32 || w == 0x10000u32 || w == 0x8000u32)
        ==> (w & 0x180u32 == 0 && (w | 0x400u32) & 0x180u32 == 0)) by (bit_vector);
    assert(Modifier::CODE_WRAPPER == 0x20000u32 && Modifier::STRIKETHROUGH_WRAPPER == 0x80000u32
        && Modifier::STRONG_EMPHASIS_WRAPPER == 0x10000u32 && Modifier::EMPHASIS_WRAPPER == 0x8000u32
        && Modifier::NEW_LINE == 0x400u32) by (bit_vector);
}

proof fn lemma_deco_head_hides(out: Seq<SpanView>, f: DecoFlags, v: SpanView, sym: Symbols)
    requires
        no_hideable_url(out),
    ensures
        no_hideable_url(deco_head(out, f, v, sym).0),
{
    let m = v.modifiers;
    let nl = m.has(Modifier::NEW_LINE);
    let out1 = if nl && out.len() > 0 {
        out.update(out.len() - 1, SpanView { content: trim_end_seq(out.last().content), modifiers: out.last().modifiers, source: out.last().source })
    } else {
        out
    };
    assert(no_hideable_url(out1)) by {
        assert forall|k: int| 0 <= k < out1.len() implies !(#[trigger] out1[k]).modifiers.is_hideable_url() by {
            assert(out1[k].modifiers == out[k].modifiers);
        }
    }
    let he = m.has(Modifier::EMPHASIS);
    let hs = m.has(Modifier::STRONG_EMPHASIS);
    let hc = m.has(Modifier::CODE);
    let ht = m.has(Modifier::STRIKETHROUGH);
    let c1 = close_piece(f.code, hc, sym.code_close@, Modifier::CODE_WRAPPER);
    let c2 = close_piece(f.strikethrough, ht, sym.strikethrough_close@, Modifier::STRIKETHROUGH_WRAPPER);
    let c3 = close_piece(f.strong, hs, sym.strong_close@, Modifier::STRONG_EMPHASIS_WRAPPER);
    let c4 = close_piece(f.emphasis, he, sym.emphasis_close@, Modifier::EMPHASIS_WRAPPER);
    let (o1, t1) = open_piece(he && !f.emphasis, sym.emphasis_open@, Modifier::EMPHASIS_WRAPPER, nl, false);
    let (o2, t2) = open_piece(hs && !f.strong, sym.strong_open@, Modifier::STRONG_EMPHASIS_WRAPPER, nl, t1);
    let (o3, t3) = open_piece(ht && !f.strikethrough, sym.strikethrough_open@, Modifier::STRIKETHROUGH_WRAPPER, nl, t2);
    let (o4, t4) = open_piece(hc && !f.code, sym.code_open@, Modifier::CODE_WRAPPER, nl, t3);
    lemma_decorators_not_hideable(Modifier::CODE_WRAPPER, nl, f.code, hc, hc && !f.code, t3, sym.code_close@);
    lemma_decorators_not_hideable(Modifier::CODE_WRAPPER, nl, f.code, hc, hc && !f.code, t3, sym.code_open@);
    lemma_decorators_not_hideable(Modifier::STRIKETHROUGH_WRAPPER, nl, f.strikethrough, ht, ht && !f.strikethrough, t2, sym.strikethrough_close@);
    lemma_decorators_not_hideable(Modifier::STRIKETHROUGH_WRAPPER, nl, f.strikethrough, ht, ht && !f.strikethrough, t2, sym.strikethrough_open@);
    lemma_decorators_not_hideable(Modifier::STRONG_EMPHASIS_WRAPPER, nl, f.strong, hs, hs && !f.strong, t1, sym.strong_close@);
    lemma_decorators_not_hideable(Modifier::STRONG_EMPHASIS_WRAPPER, nl, f.strong, hs, hs && !f.strong, t1, sym.strong_open@);
    lemma_decorators_not_hideable(Modifier::EMPHASIS_WRAPPER, nl, f.emphasis, he, he && !f.emphasis, false, sym.emphasis_close@);
    lemma_decorators_not_hideable(Modifier::EMPHASIS_WRAPPER, nl, f.emphasis, he, he && !f.emphasis, false, sym.emphasis_open@);
    lemma_no_hideable_add(out1, c1);
    lemma_no_hideable_add(out1 + c1, c2);
    lemma_no_hideable_add(out1 + c1 + c2, c3);
    lemma_no_hideable_add(out1 + c1 + c2 + c3, c4);
    lemma_no_hideable_add(out1 + c1 + c2 + c3 + c4, o1);
    lemma_no_hideable_add(out1 + c1 + c2 + c3 + c4 + o1, o2);
    lemma_no_hideable_add(out1 + c1 + c2 + c3 + c4 + o1 + o2, o3);
    lemma_no_hideable_add(out1 + c1 + c2 + c3 + c4 + o1 + o2 + o3, o4);
}

proof fn lemma_deco_fold_hides(spans: Seq<SpanView>, n: int, sym: Symbols)
    requires
        sym.hide_urls,
        0 <= n <= spans.len(),
    ensures
        no_hideable_url(deco_fold(spans, n, sym).0),
    decreases n,
{
    if n > 0 {
        lemma_deco_fold_hides(spans, n - 1, sym);
        let (out, f) = deco_fold(spans, n - 1, sym);
        let v = spans[n - 1];
        lemma_deco_head_hides(out, f, v, sym);
        let head = deco_head(out, f, v, sym);
        let tail = deco_tail(v, head.1, sym);
        assert(no_hideable_url(tail));
        lemma_no_hideable_add(head.0, tail);
    }
}

/// With hidden URLs, decorating spans leaves no URL part that is to be hidden: link URLs and
/// their parentheses are dropped, and no decorator is one.
pub proof fn decorating_hides_urls(spans: Seq<SpanView>, sym: Symbols)
    requires
        sym.hide_urls,
    ensures
        no_hideable_url(apply_decorators_spec(spans, sym)),
{
    lemma_deco_fold_hides(spans, spans.len() as int, sym);
    let (out, f) = deco_fold(spans, spans.len() as int, sym);
    let c1 = close_piece(f.code, false, sym.code_close@, Modifier::CODE_WRAPPER);
    let c2 = close_piece(f.strikethrough, false, sym.strikethrough_close@, Modifier::STRIKETHROUGH_WRAPPER);
    let c3 = close_piece(f.strong, false, sym.strong_close@, Modifier::STRONG_EMPHASIS_WRAPPER);
    let c4 = close_piece(f.emphasis, false, sym.emphasis_close@, Modifier::EMPHASIS_WRAPPER);
    lemma_decorators_not_hideable(Modifier::CODE_WRAPPER, false, f.code, false, false, false, sym.code_close@);
    lemma_decorators_not_hideable(Modifier::STRIKETHROUGH_WRAPPER, false, f.strikethrough, false, false, false, sym.strikethrough_close@);
    lemma_decorators_not_hideable(Modifier::STRONG_EMPHASIS_WRAPPER, false, f.strong, false, false, false, sym.strong_close@);
    lemma_decorators_not_hideable(Modifier::EMPHASIS_WRAPPER, false, f.emphasis, false, false, false, sym.emphasis_close@);
    lemma_no_hideable_add(out, c1);
    lemma_no_hideable_add(out + c1, c2);
    lemma_no_hideable_add(out + c1 + c2, c3);
    lemma_no_hideable_add(out + c1 + c2 + c3, c4);
}

/// Push a closing decorator (see [`close_piece`]).
fn push_close(out: &mut Vec<Span>, prev: bool, present: bool, close: &String, w: u32)
    ensures
        spans_view(final(out)@) == spans_view(old(out)@) + close_piece(prev, present, close@, w),
{
    if prev && !present && !close.as_str().is_empty() {
        let sp = Span::new(close.clone(), Modifier::new(w));
        let ghost p = out@;
        out.push(sp);
        proof { lemma_spans_view_push(p, sp); }
    } else {
        assert(spans_view(out@) =~= spans_view(out@) + Seq::<SpanView>::empty());
    }
}

/// Push an opening decorator (see [`open_piece`]); returns whether the start of a source line
/// has been transferred.
fn push_open(out: &mut Vec<Span>, starts: bool, open: &String, w: u32, nl: bool, transferred: bool) -> (t: bool)
    ensures
        spans_view(final(out)@) == spans_view(old(out)@) + open_piece(starts, open@, w, nl, transferred).0,
        t == open_piece(starts, open@, w, nl, transferred).1,
{
    let ghost p = out@;
    if starts && !open.as_str().is_empty() {
        let (mods, t) = if nl && !transferred {
            (Modifier::new(w | Modifier::NEW_LINE), true)
        } else {
            (Modifier::new(w), transferred)
        };
        let sp = Span::new(open.clone(), mods);
        out.push(sp);
        proof {
            lemma_spans_view_push(p, sp);
            assert(spans_view(p).push(sp@) =~= spans_view(p) + seq![sp@]);
        }
        t
    } else {
        assert(spans_view(out@) =~= spans_view(out@) + Seq::<SpanView>::empty());
        transferred
    }
}

/// Push what comes before a decorated span (see [`deco_head`]).
#[verifier::rlimit(40)]
fn decorate_head(result: &mut Vec<Span>, src: &Span, f: &DecoFlags, sym: &Symbols) -> (t: bool)
    ensures
        (spans_view(final(result)@), t) == deco_head(spans_view(old(result)@), *f, src@, *sym),
{
    let has_emphasis = src.modifiers.contains(Modifier::EMPHASIS);
    let has_strong = src.modifiers.contains(Modifier::STRONG_EMPHASIS);
    let has_code = src.modifiers.contains(Modifier::CODE);
    let has_strikethrough = src.modifiers.contains(Modifier::STRIKETHROUGH);
    let is_newline = src.modifiers.contains(Modifier::NEW_LINE);
    let n = result.len();
    if is_newline && n > 0 {
        let mut last = result[n - 1].copy();
        trim_end_inplace(&mut last.content);
        let ghost p = result@;
        result.set(n - 1, last);
        proof {
            assert(spans_view(result@) =~= spans_view(p).update(n - 1, last@));
        }
    }
    push_close(result, f.code, has_code, &sym.code_close, Modifier::CODE_WRAPPER);
    push_close(result, f.strikethrough, has_strikethrough, &sym.strikethrough_close, Modifier::STRIKETHROUGH_WRAPPER);
    push_close(result, f.strong, has_strong, &sym.strong_close, Modifier::STRONG_EMPHASIS_WRAPPER);
    push_close(result, f.emphasis, has_emphasis, &sym.emphasis_close, Modifier::EMPHASIS_WRAPPER);
    let t1 = push_open(result, has_emphasis && !f.emphasis, &sym.emphasis_open, Modifier::EMPHASIS_WRAPPER, is_newline, false);
    let t2 = push_open(result, has_strong && !f.strong, &sym.strong_open, Modifier::STRONG_EMPHASIS_WRAPPER, is_newline, t1);
    let t3 = push_open(result, has_strikethrough && !f.strikethrough, &sym.strikethrough_open, Modifier::STRIKETHROUGH_WRAPPER, is_newline, t2);
    let t4 = push_open(result, has_code && !f.code, &sym.code_open, Modifier::CODE_WRAPPER, is_newline, t3);
    t4
}

/// Push the decorated span itself, if it is kept (see [`deco_tail`]).
fn decorate_tail(result: &mut Vec<Span>, src: &Span, transferred: bool, sym: &Symbols)
    ensures
        spans_view(final(result)@) == spans_view(old(result)@) + deco_tail(src@, transferred, *sym),
{
    let mut span = src.copy();
    let desc_wrapper = span.modifiers.contains(Modifier::LINK_DESCRIPTION_WRAPPER);
    let url_wrapper = span.modifiers.contains(Modifier::LINK_URL_WRAPPER);
    if transferred {
        span.modifiers.remove(Modifier::NEW_LINE);
    }
    proof {
        reveal_strlit("[");
        reveal_strlit("(");
        assert("["@ =~= seq!['[']);
        assert("("@ =~= seq!['(']);
    }
    if desc_wrapper {
        span.content = if src.content == "[".to_owned() {
            sym.link_desc_open.clone()
        } else {
            sym.link_desc_close.clone()
        };
    } else if url_wrapper {
        span.content = if src.content == "(".to_owned() {
            sym.link_url_open.clone()
        } else {
            sym.link_url_close.clone()
        };
    }
    let hide = sym.hide_urls && span.modifiers.hideable_url();
    let ghost before_kept = result@;
    if !hide {
        result.push(span);
        proof {
            lemma_spans_view_push(before_kept, span);
            assert(spans_view(before_kept).push(span@) =~= spans_view(before_kept) + seq![span@]);
        }
    } else {
        assert(spans_view(result@) =~= spans_view(before_kept) + Seq::<SpanView>::empty());
    }
}

/// Decorate one span (see [`deco_step`]).
fn decorate_one(result: &mut Vec<Span>, src: &Span, f: DecoFlags, sym: &Symbols) -> (r: DecoFlags)
    ensures
        (spans_view(final(result)@), r) == deco_step(spans_view(old(result)@), f, src@, *sym),
{
    let t = decorate_head(result, src, &f, sym);
    let ghost head = spans_view(result@);
    decorate_tail(result, src, t, sym);
    DecoFlags {
        emphasis: src.modifiers.contains(Modifier::EMPHASIS),
        strong: src.modifiers.contains(Modifier::STRONG_EMPHASIS),
        code: src.modifiers.contains(Modifier::CODE),
        strikethrough: src.modifiers.contains(Modifier::STRIKETHROUGH),
    }
}

/// Apply the mapper's decorators to the spans of a paragraph (see
/// [`apply_decorators_spec`]). This happens before wrapping, so that decorator widths count.
pub fn apply_decorators(spans: &Vec<Span>, sym: &Symbols) -> (r: Vec<Span>)
    ensures
        spans_view(r@) == apply_decorators_spec(spans_view(spans@), *sym),
{
    let mut result: Vec<Span> = Vec::new();
    let mut f = DecoFlags { emphasis: false, strong: false, code: false, strikethrough: false };
    for i in 0..spans.len()
        invariant
            deco_fold(spans_view(spans@), i as int, *sym) == (spans_view(result@), f),
    {
        proof { assert(spans_view(spans@)[i as int] == spans@[i as int]@); }
        f = decorate_one(&mut result, &spans[i], f, sym);
    }
    push_close(&mut result, f.code, false, &sym.code_close, Modifier::CODE_WRAPPER);
    push_close(&mut result, f.strikethrough, false, &sym.strikethrough_close, Modifier::STRIKETHROUGH_WRAPPER);
    push_close(&mut result, f.strong, false, &sym.strong_close, Modifier::STRONG_EMPHASIS_WRAPPER);
    push_close(&mut result, f.emphasis, false, &sym.emphasis_close, Modifier::EMPHASIS_WRAPPER);
    result
}


/// The kind of content a line represents.
#[derive(Debug, Clone, PartialEq)]
pub enum LineKind {
    /// Regular text paragraph.
    Paragraph,
    /// Header line with tier (1-6).
    Header(u8),
    /// Code block line with language.
    CodeBlock { language: String },
    /// Horizontal rule (content is in spans).
    HorizontalRule,
    /// Table data row.
    TableRow { is_header: bool },
    /// Table border/separator.
    TableBorder,
    /// Image reference.
    Image { url: String, description: String },
    /// Blank line.
    Blank,
}

pub enum LineKindView {
    Paragraph,
    Header(u8),
    CodeBlock(Seq<char>),
    HorizontalRule,
    TableRow(bool),
    TableBorder,
    Image(Seq<char>, Seq<char>),
    Blank,
}

impl View for LineKind {
    type V = LineKindView;

    open spec fn view(&self) -> LineKindView {
        match self {
            LineKind::Paragraph => LineKindView::Paragraph,
            LineKind::Header(t) => LineKindView::Header(*t),
            LineKind::CodeBlock { language } => LineKindView::CodeBlock(language@),
            LineKind::HorizontalRule => LineKindView::HorizontalRule,
            LineKind::TableRow { is_header } => LineKindView::TableRow(*is_header),
            LineKind::TableBorder => LineKindView::TableBorder,
            LineKind::Image { url, description } => LineKindView::Image(url@, description@),
            LineKind::Blank => LineKindView::Blank,
        }
    }
}

/// A single output line: its spans (prefix spans for nesting included) and its kind.
#[derive(Debug, Clone, PartialEq)]
pub struct Line {
    pub spans: Vec<Span>,
    pub kind: LineKind,
}

pub struct LineView {
    pub spans: Seq<SpanView>,
    pub kind: LineKindView,
}

impl View for Line {
    type V = LineView;

    open spec fn view(&self) -> LineView {
        LineView { spans: spans_view(self.spans@), kind: self.kind@ }
    }
}

pub open spec fn lines_view(s: Seq<Line>) -> Seq<LineView> {
    s.map_values(|l: Line| l@)
}

pub proof fn lemma_lines_view_push(s: Seq<Line>, x: Line)
    ensures
        lines_view(s.push(x)) == lines_view(s).push(x@),
{
    assert(lines_view(s.push(x)) =~= lines_view(s).push(x@));
}

pub proof fn lemma_lines_view_add(s: Seq<Line>, t: Seq<Line>)
    ensures
        lines_view(s + t) == lines_view(s) + lines_view(t),
{
    assert(lines_view(s + t) =~= lines_view(s) + lines_view(t));
}

/// The (saturating) sum of the display widths of the spans' contents.
pub open spec fn spans_width(s: Seq<SpanView>) -> usize
    decreases s.len(),
{
    if s.len() == 0 {
        0
    } else {
        spans_width(s.drop_last()).saturating_add(display_width(s.last().content))
    }
}

/// The display width of spans (see [`spans_width`]).
pub fn spans_columns(v: &Vec<Span>) -> (w: usize)
    ensures
        w == spans_width(spans_view(v@)),
{
    let mut w: usize = 0;
    for i in 0..v.len()
        invariant
            w == spans_width(spans_view(v@).take(i as int)),
    {
        assert(spans_view(v@).take(i + 1).drop_last() =~= spans_view(v@).take(i as int));
        w = w.saturating_add(str_width(v[i].content.as_str()));
    }
    assert(spans_view(v@).take(v@.len() as int) =~= spans_view(v@));
    w
}

/// The spans of one line of code: the prefix, the code, and code-styled padding up to the
/// available width.
pub open spec fn code_line_spans(prefix: Seq<SpanView>, part: Seq<char>, avail: usize) -> Seq<SpanView> {
    let pad = avail.saturating_sub(display_width(part));
    prefix + seq![plain(part, Modifier { bits: Modifier::CODE })] + if pad > 0 {
        seq![plain(repeat_seq(seq![' '], pad as nat), Modifier { bits: Modifier::CODE })]
    } else {
        Seq::<SpanView>::empty()
    }
}

/// The lines of the code parts `parts[k..]`.
pub open spec fn code_parts_lines(prefix: Seq<SpanView>, parts: Seq<Seq<char>>, avail: usize, language: Seq<char>, k: int) -> Seq<LineView>
    decreases parts.len() - k,
{
    if k < 0 || k >= parts.len() {
        Seq::empty()
    } else {
        seq![LineView { spans: code_line_spans(prefix, parts[k], avail), kind: LineKindView::CodeBlock(language) }]
            + code_parts_lines(prefix, parts, avail, language, k + 1)
    }
}

/// The columns left for code after the prefix, at least one.
pub open spec fn code_avail(width: u16, prefix: Seq<SpanView>) -> usize {
    let a = (width as usize).saturating_sub(spans_width(prefix));
    if a < 1 { 1 } else { a }
}

/// The output lines of the first `n` lines of code: a line wider than the available width is
/// broken with textwrap.
pub open spec fn code_lines_spec(prefix: Seq<SpanView>, lines: Seq<Seq<char>>, avail: usize, language: Seq<char>, n: int) -> Seq<LineView>
    decreases n,
{
    if n <= 0 {
        Seq::empty()
    } else {
        let l = lines[n - 1];
        let parts = if display_width(l) > avail { textwrap_lines(l, avail) } else { seq![l] };
        code_lines_spec(prefix, lines, avail, language, n - 1) + code_parts_lines(prefix, parts, avail, language, 0)
    }
}

/// The output lines of a code block.
pub open spec fn code_block_spec(width: u16, language: Seq<char>, code: Seq<char>, nesting: Seq<MdLineContainer>, sym: Symbols) -> Seq<LineView> {
    let lines = text_lines(code);
    let prefix = prefix_spans(nesting, sym);
    code_lines_spec(prefix, lines, code_avail(width, prefix), language, lines.len() as int)
}

/// Push the lines of code parts (see [`code_parts_lines`]).
fn push_code_parts(out: &mut Vec<Line>, prefix: &Vec<Span>, parts: &Vec<String>, avail: usize, language: &String)
    ensures
        lines_view(final(out)@) == lines_view(old(out)@) + code_parts_lines(spans_view(prefix@), strings_view(parts@), avail, language@, 0),
{
    let ghost goal = lines_view(out@) + code_parts_lines(spans_view(prefix@), strings_view(parts@), avail, language@, 0);
    for k in 0..parts.len()
        invariant
            goal == lines_view(out@) + code_parts_lines(spans_view(prefix@), strings_view(parts@), avail, language@, k as int),
    {
        let part = &parts[k];
        let content_width = str_width(part.as_str());
        let padding = avail.saturating_sub(content_width);
        let mut spans = copy_spans(prefix);
        let ghost s0 = spans@;
        let c = Span::new(part.clone(), Modifier::new(Modifier::CODE));
        spans.push(c);
        proof { lemma_spans_view_push(s0, c); }
        if padding > 0 {
            let ghost s1 = spans@;
            proof {
                reveal_strlit(" ");
                assert(" "@ =~= seq![' ']);
            }
            let p = Span::new(repeat_str(" ", padding), Modifier::new(Modifier::CODE));
            spans.push(p);
            proof { lemma_spans_view_push(s1, p); }
        }
        let line = Line { spans, kind: LineKind::CodeBlock { language: language.clone() } };
        proof {
            assert(line@.spans =~= code_line_spans(spans_view(prefix@), strings_view(parts@)[k as int], avail));
        }
        let ghost o = out@;
        out.push(line);
        proof {
            lemma_lines_view_push(o, line);
            assert(lines_view(o).push(line@) =~= lines_view(o) + seq![line@]);
        }
    }
}

/// Convert a code block to output lines (see [`code_block_spec`]).
pub fn code_block_to_lines(width: u16, language: &String, code: &String, nesting: &Vec<MdLineContainer>, sym: &Symbols) -> (r: Vec<Line>)
    ensures
        lines_view(r@) == code_block_spec(width, language@, code@, nesting@, *sym),
{
    let code_lines = split_lines(code.as_str());
    let ghost lines = code_lines@.map_values(|l: String| l@);
    let prefix = nesting_to_prefix_spans(nesting, sym);
    let prefix_width = spans_columns(&prefix);
    let a = (width as usize).saturating_sub(prefix_width);
    let available = if a < 1 { 1 } else { a };
    let mut result: Vec<Line> = Vec::new();
    for i in 0..code_lines.len()
        invariant
            lines == code_lines@.map_values(|l: String| l@),
            lines == text_lines(code@),
            spans_view(prefix@) == prefix_spans(nesting@, *sym),
            available == code_avail(width, spans_view(prefix@)),
            lines_view(result@) == code_lines_spec(spans_view(prefix@), lines, available, language@, i as int),
    {
        let line = &code_lines[i];
        proof { assert(lines[i as int] == line@); }
        if str_width(line.as_str()) > available {
            let parts = wrap_text(line.as_str(), available);
            push_code_parts(&mut result, &prefix, &parts, available, language);
        } else {
            let mut parts: Vec<String> = Vec::new();
            parts.push(line.clone());
            proof { assert(strings_view(parts@) =~= seq![line@]); }
            push_code_parts(&mut result, &prefix, &parts, available, language);
        }
    }
    result
}


/// Some span has content other than whitespace.
pub open spec fn has_content(spans: Seq<SpanView>) -> bool {
    exists|i: int| 0 <= i < spans.len() && !all_ws(#[trigger] spans[i].content)
}

/// The line that stands for an image while it loads.
pub open spec fn image_line(desc: Seq<char>, url: Seq<char>) -> LineView {
    LineView {
        spans: seq![
            plain(seq!['!', '['], Modifier { bits: Modifier::LINK_DESCRIPTION_WRAPPER }),
            plain(seq!['L', 'o', 'a', 'd', 'i', 'n', 'g', '.', '.', '.'], Modifier { bits: Modifier::LINK_URL }),
            plain(seq![']'], Modifier { bits: Modifier::LINK_DESCRIPTION_WRAPPER }),
            plain(seq!['('], Modifier { bits: Modifier::LINK_URL_WRAPPER }),
            plain(url, Modifier { bits: Modifier::LINK_DESCRIPTION }),
            plain(seq![')'], Modifier { bits: Modifier::LINK_URL_WRAPPER }),
        ],
        kind: LineKindView::Image(url, desc),
    }
}

/// The image lines of the images among `urls`, in order.
pub open spec fn image_lines(urls: Seq<TrackedUrlView>) -> Seq<LineView>
    decreases urls.len(),
{
    if urls.len() == 0 {
        Seq::empty()
    } else {
        image_lines(urls.drop_last()) + match urls.last() {
            TrackedUrlView::Image { desc, url } => seq![image_line(desc, url)],
            TrackedUrlView::Link { .. } => Seq::<LineView>::empty(),
        }
    }
}

/// The nesting of a soft-wrapped continuation line: list items show as indentation.
pub open spec fn continued(n: Seq<MdLineContainer>) -> Seq<MdLineContainer> {
    n.map_values(|c: MdLineContainer| match c {
        MdLineContainer::Blockquote => MdLineContainer::Blockquote,
        MdLineContainer::ListItem { marker, continuation } => MdLineContainer::ListItem { marker, continuation: true },
    })
}

/// The line starts a line of the source (it was not made by soft wrapping).
pub open spec fn starts_source_line(spans: Seq<SpanView>) -> bool {
    spans.len() > 0 && spans[0].modifiers.has(Modifier::NEW_LINE)
}

/// The output lines of the wrapped line number `idx`: nothing when it has neither content nor
/// images; else its text line (prefixed for its nesting, with list markers only on the first
/// line and on lines that start a source line) and a line for each of its images.
pub open spec fn wrapped_line_lines(w: WrappedLineView, idx: int, nesting: Seq<MdLineContainer>, sym: Symbols) -> Seq<LineView> {
    let imgs = image_lines(w.urls);
    if !has_content(w.spans) && imgs.len() == 0 {
        Seq::empty()
    } else {
        let ln = if idx == 0 || starts_source_line(w.spans) { nesting } else { continued(nesting) };
        let text = if w.spans.len() > 0 {
            seq![LineView { spans: prefix_spans(ln, sym) + w.spans, kind: LineKindView::Paragraph }]
        } else {
            Seq::<LineView>::empty()
        };
        text + imgs
    }
}

/// The output lines of the first `n` wrapped lines.
pub open spec fn wrapped_to_lines_spec(ws: Seq<WrappedLineView>, nesting: Seq<MdLineContainer>, sym: Symbols, n: int) -> Seq<LineView>
    decreases n,
{
    if n <= 0 {
        Seq::empty()
    } else {
        wrapped_to_lines_spec(ws, nesting, sym, n - 1) + wrapped_line_lines(ws[n - 1], n - 1, nesting, sym)
    }
}

/// Whether some span has content other than whitespace.
fn line_has_content(spans: &Vec<Span>) -> (b: bool)
    ensures
        b == has_content(spans_view(spans@)),
{
    for i in 0..spans.len()
        invariant
            forall|j: int| 0 <= j < i ==> all_ws(#[trigger] spans_view(spans@)[j].content),
    {
        if !is_blank_str(spans[i].content.as_str()) {
            assert(!all_ws(spans_view(spans@)[i as int].content));
            return true;
        }
    }
    false
}

/// A span view with `content` and the single flag `bits`.
fn flagged(content: &str, bits: u32) -> (s: Span)
    ensures
        s@ == plain(content@, Modifier { bits }),
{
    Span::new(content.to_owned(), Modifier::new(bits))
}

/// Push the image lines of the images among `urls`.
fn push_image_lines(out: &mut Vec<Line>, urls: &Vec<TrackedUrl>)
    ensures
        lines_view(final(out)@) == lines_view(old(out)@) + image_lines(urls_view(urls@)),
{
    let ghost start = lines_view(out@);
    for i in 0..urls.len()
        invariant
            lines_view(out@) == start + image_lines(urls_view(urls@).take(i as int)),
    {
        proof {
            assert(urls_view(urls@).take(i + 1).drop_last() =~= urls_view(urls@).take(i as int));
            assert(urls_view(urls@).take(i + 1).last() == urls@[i as int]@);
        }
        match &urls[i] {
            TrackedUrl::Image { desc, url } => {
                proof {
                    reveal_strlit("![");
                    reveal_strlit("Loading...");
                    reveal_strlit("]");
                    reveal_strlit("(");
                    reveal_strlit(")");
                    assert("!["@ =~= seq!['!', '[']);
                    assert("Loading..."@ =~= seq!['L', 'o', 'a', 'd', 'i', 'n', 'g', '.', '.', '.']);
                    assert("]"@ =~= seq![']']);
                    assert("("@ =~= seq!['(']);
                    assert(")"@ =~= seq![')']);
                }
                let mut spans: Vec<Span> = Vec::new();
                spans.push(flagged("![", Modifier::LINK_DESCRIPTION_WRAPPER));
                spans.push(flagged("Loading...", Modifier::LINK_URL));
                spans.push(flagged("]", Modifier::LINK_DESCRIPTION_WRAPPER));
                spans.push(flagged("(", Modifier::LINK_URL_WRAPPER));
                spans.push(flagged(url.as_str(), Modifier::LINK_DESCRIPTION));
                spans.push(flagged(")", Modifier::LINK_URL_WRAPPER));
                let line = Line { spans, kind: LineKind::Image { url: url.clone(), description: desc.clone() } };
                proof {
                    assert(spans_view(line.spans@) =~= image_line(desc@, url@).spans);
                }
                let ghost o = out@;
                out.push(line);
                proof { lemma_lines_view_push(o, line); }
            },
            TrackedUrl::Link { .. } => {},
        }
    }
    assert(urls_view(urls@).take(urls@.len() as int) =~= urls_view(urls@));
}

/// The nesting of a soft-wrapped continuation line (see [`continued`]).
fn continue_nesting(n: &Vec<MdLineContainer>) -> (r: Vec<MdLineContainer>)
    ensures
        r@ == continued(n@),
{
    let mut r: Vec<MdLineContainer> = Vec::new();
    for i in 0..n.len()
        invariant
            r@ == continued(n@.take(i as int)),
    {
        let c = match n[i] {
            MdLineContainer::Blockquote => MdLineContainer::Blockquote,
            MdLineContainer::ListItem { marker, continuation } => MdLineContainer::ListItem { marker, continuation: true },
        };
        r.push(c);
        assert(continued(n@.take(i + 1)) =~= continued(n@.take(i as int)).push(c));
    }
    assert(n@.take(n@.len() as int) =~= n@);
    r
}

/// Turn wrapped lines into output lines (see [`wrapped_to_lines_spec`]).
pub fn wrapped_to_lines(wrapped_lines: Vec<WrappedLine>, nesting: &Vec<MdLineContainer>, sym: &Symbols) -> (r: Vec<Line>)
    ensures
        lines_view(r@) == wrapped_to_lines_spec(wrapped_view(wrapped_lines@), nesting@, *sym, wrapped_lines@.len() as int),
{
    let mut lines: Vec<Line> = Vec::new();
    let cont = continue_nesting(nesting);
    for line_idx in 0..wrapped_lines.len()
        invariant
            cont@ == continued(nesting@),
            lines_view(lines@) == wrapped_to_lines_spec(wrapped_view(wrapped_lines@), nesting@, *sym, line_idx as int),
    {
        let wl = &wrapped_lines[line_idx];
        proof { assert(wrapped_view(wrapped_lines@)[line_idx as int] == wl@); }
        let has = line_has_content(&wl.spans);
        let mut images: Vec<Line> = Vec::new();
        push_image_lines(&mut images, &wl.urls);
        proof { assert(lines_view(images@) =~= image_lines(wl@.urls)); }
        if has || images.len() > 0 {
            let first = line_idx == 0 || (wl.spans.len() > 0 && wl.spans[0].modifiers.contains(Modifier::NEW_LINE));
            proof {
                if wl.spans.len() > 0 {
                    assert(spans_view(wl.spans@)[0] == wl.spans@[0]@);
                }
            }
            if wl.spans.len() > 0 {
                let mut spans = if first { nesting_to_prefix_spans(nesting, sym) } else { nesting_to_prefix_spans(&cont, sym) };
                let ghost s0 = spans@;
                let mut body = copy_spans(&wl.spans);
                let ghost b0 = body@;
                spans.append(&mut body);
                proof {
                    assert(spans@ =~= s0 + b0);
                    lemma_spans_view_add(s0, b0);
                }
                let line = Line { spans, kind: LineKind::Paragraph };
                let ghost o = lines@;
                lines.push(line);
                proof { lemma_lines_view_push(o, line); }
            }
            let ghost o2 = lines@;
            let ghost i0 = images@;
            lines.append(&mut images);
            proof {
                assert(lines@ =~= o2 + i0);
                lemma_lines_view_add(o2, i0);
            }
        }
    }
    lines
}

/// The content of the span of `spans[k..]` that starts at column `start`, counting columns
/// from `pos` at span `k`: `None` when no span starts there (a span that runs past `start`
/// ends the search). Span widths are taken as `u16`, and the column count saturates.
pub open spec fn content_at(spans: Seq<SpanView>, start: u16, k: int, pos: u16) -> Option<Seq<char>>
    decreases spans.len() - k,
{
    if k < 0 || k >= spans.len() {
        None
    } else if pos == start {
        Some(spans[k].content)
    } else {
        let next = pos.saturating_add(display_width(spans[k].content) as u16);
        if next > start {
            None
        } else {
            content_at(spans, start, k + 1, next)
        }
    }
}

/// The text of the span of `line` that starts at column `start`, or the empty text when no
/// span starts there (see [`content_at`]).
pub fn extract_line_content(line: &Line, start: u16) -> (s: String)
    ensures
        s@ == match content_at(line@.spans, start, 0, 0) {
            Some(c) => c,
            None => Seq::<char>::empty(),
        },
{
    let mut pos: u16 = 0;
    let ghost all = line@.spans;
    for i in 0..line.spans.len()
        invariant
            all == line@.spans,
            all == spans_view(line.spans@),
            content_at(all, start, 0, 0) == content_at(all, start, i as int, pos),
    {
        proof { assert(all[i as int] == line.spans@[i as int]@); }
        if pos == start {
            return line.spans[i].content.clone();
        }
        let span_width = str_width(line.spans[i].content.as_str()) as u16;
        pos = pos.saturating_add(span_width);
        if pos > start {
            return String::new();
        }
    }
    String::new()
}

} // verus!

verus! {

/// One of the decorated styles.
#[derive(Debug, Clone, Copy, PartialEq, Eq, Structural)]
pub enum DecoStyle {
    Emphasis,
    Strong,
    Code,
    Strikethrough,
}

/// The flag of a span that has the style.
pub open spec fn style_bit(s: DecoStyle) -> u32 {
    match s {
        DecoStyle::Emphasis => Modifier::EMPHASIS,
        DecoStyle::Strong => Modifier::STRONG_EMPHASIS,
        DecoStyle::Code => Modifier::CODE,
        DecoStyle::Strikethrough => Modifier::STRIKETHROUGH,
    }
}

/// The flag of the style's decorators.
pub open spec fn style_wrapper(s: DecoStyle) -> u32 {
    match s {
        DecoStyle::Emphasis => Modifier::EMPHASIS_WRAPPER,
        DecoStyle::Strong => Modifier::STRONG_EMPHASIS_WRAPPER,
        DecoStyle::Code => Modifier::CODE_WRAPPER,
        DecoStyle::Strikethrough => Modifier::STRIKETHROUGH_WRAPPER,
    }
}

/// The mapper's opening symbol of the style.
pub open spec fn style_open(sym: Symbols, s: DecoStyle) -> Seq<char> {
    match s {
        DecoStyle::Emphasis => sym.emphasis_open@,
        DecoStyle::Strong => sym.strong_open@,
        DecoStyle::Code => sym.code_open@,
        DecoStyle::Strikethrough => sym.strikethrough_open@,
    }
}

/// The mapper's closing symbol of the style.
pub open spec fn style_close(sym: Symbols, s: DecoStyle) -> Seq<char> {
    match s {
        DecoStyle::Emphasis => sym.emphasis_close@,
        DecoStyle::Strong => sym.strong_close@,
        DecoStyle::Code => sym.code_close@,
        DecoStyle::Strikethrough => sym.strikethrough_close@,
    }
}

/// How many of the spans carry the flag `w`.
pub open spec fn flagged_count(s: Seq<SpanView>, w: u32) -> nat
    decreases s.len(),
{
    if s.len() == 0 {
        0
    } else {
        flagged_count(s.drop_last(), w) + if s.last().modifiers.bits & w != 0 { 1nat } else { 0nat }
    }
}

/// How many runs of spans with the style start among the first `n` spans: spans that have
/// it after one that has not (or at the start).
pub open spec fn style_runs(spans: Seq<SpanView>, s: DecoStyle, n: int) -> nat
    decreases n,
{
    if n <= 0 {
        0
    } else {
        style_runs(spans, s, n - 1) + if spans[n - 1].modifiers.has(style_bit(s))
            && (n == 1 || !spans[n - 2].modifiers.has(style_bit(s))) { 1nat } else { 0nat }
    }
}

proof fn lemma_flagged_add(a: Seq<SpanView>, b: Seq<SpanView>, w: u32)
    ensures
        flagged_count(a + b, w) == flagged_count(a, w) + flagged_count(b, w),
    decreases b.len(),
{
    if b.len() == 0 {
        assert(a + b =~= a);
    } else {
        lemma_flagged_add(a, b.drop_last(), w);
        assert((a + b).drop_last() =~= a + b.drop_last());
        assert((a + b).last() == b.last());
    }
}

proof fn lemma_flagged_one(v: SpanView, w: u32)
    ensures
        flagged_count(seq![v], w) == if v.modifiers.bits & w != 0 { 1nat } else { 0nat },
{
    reveal_with_fuel(flagged_count, 2);
    assert(seq![v].drop_last() =~= Seq::<SpanView>::empty());
    assert(seq![v].last() == v);
}

/// The decorator flags are distinct bits, also with the start of a source line added.
proof fn lemma_wrapper_bits(s: DecoStyle, t: DecoStyle)
    ensures
        (style_wrapper(s) & style_wrapper(t) != 0) == (s == t),
        ((style_wrapper(s) | Modifier::NEW_LINE) & style_wrapper(t) != 0) == (s == t),
{
    assert(
        Modifier::EMPHASIS_WRAPPER & Modifier::EMPHASIS_WRAPPER != 0
        && Modifier::STRONG_EMPHASIS_WRAPPER & Modifier::STRONG_EMPHASIS_WRAPPER != 0
        && Modifier::CODE_WRAPPER & Modifier::CODE_WRAPPER != 0
        && Modifier::STRIKETHROUGH_WRAPPER & Modifier::STRIKETHROUGH_WRAPPER != 0
        && Modifier::EMPHASIS_WRAPPER & Modifier::STRONG_EMPHASIS_WRAPPER == 0
        && Modifier::EMPHASIS_WRAPPER & Modifier::CODE_WRAPPER == 0
        && Modifier::EMPHASIS_WRAPPER & Modifier::STRIKETHROUGH_WRAPPER == 0
        && Modifier::STRONG_EMPHASIS_WRAPPER & Modifier::EMPHASIS_WRAPPER == 0
        && Modifier::STRONG_EMPHASIS_WRAPPER & Modifier::CODE_WRAPPER == 0
        && Modifier::STRONG_EMPHASIS_WRAPPER & Modifier::STRIKETHROUGH_WRAPPER == 0
        && Modifier::CODE_WRAPPER & Modifier::EMPHASIS_WRAPPER == 0
        && Modifier::CODE_WRAPPER & Modifier::STRONG_EMPHASIS_WRAPPER == 0
        && Modifier::CODE_WRAPPER & Modifier::STRIKETHROUGH_WRAPPER == 0
        && Modifier::STRIKETHROUGH_WRAPPER & Modifier::EMPHASIS_WRAPPER == 0
        && Modifier::STRIKETHROUGH_WRAPPER & Modifier::STRONG_EMPHASIS_WRAPPER == 0
        && Modifier::STRIKETHROUGH_WRAPPER & Modifier::CODE_WRAPPER == 0
        && (Modifier::EMPHASIS_WRAPPER | Modifier::NEW_LINE) & Modifier::EMPHASIS_WRAPPER != 0
        && (Modifier::STRONG_EMPHASIS_WRAPPER | Modifier::NEW_LINE) & Modifier::STRONG_EMPHASIS_WRAPPER != 0
        && (Modifier::CODE_WRAPPER | Modifier::NEW_LINE) & Modifier::CODE_WRAPPER != 0
        && (Modifier::STRIKETHROUGH_WRAPPER | Modifier::NEW_LINE) & Modifier::STRIKETHROUGH_WRAPPER != 0
        && (Modifier::EMPHASIS_WRAPPER | Modifier::NEW_LINE) & Modifier::STRONG_EMPHASIS_WRAPPER == 0
        && (Modifier::EMPHASIS_WRAPPER | Modifier::NEW_LINE) & Modifier::CODE_WRAPPER == 0
        && (Modifier::EMPHASIS_WRAPPER | Modifier::NEW_LINE) & Modifier::STRIKETHROUGH_WRAPPER == 0
        && (Modifier::STRONG_EMPHASIS_WRAPPER | Modifier::NEW_LINE) & Modifier::EMPHASIS_WRAPPER == 0
        && (Modifier::STRONG_EMPHASIS_WRAPPER | Modifier::NEW_LINE) & Modifier::CODE_WRAPPER == 0
        && (Modifier::STRONG_EMPHASIS_WRAPPER | Modifier::NEW_LINE) & Modifier::STRIKETHROUGH_WRAPPER == 0
        && (Modifier::CODE_WRAPPER | Modifier::NEW_LINE) & Modifier::EMPHASIS_WRAPPER == 0
        && (Modifier::CODE_WRAPPER | Modifier::NEW_LINE) & Modifier::STRONG_EMPHASIS_WRAPPER == 0
        && (Modifier::CODE_WRAPPER | Modifier::NEW_LINE) & Modifier::STRIKETHROUGH_WRAPPER == 0
        && (Modifier::STRIKETHROUGH_WRAPPER | Modifier::NEW_LINE) & Modifier::EMPHASIS_WRAPPER == 0
        && (Modifier::STRIKETHROUGH_WRAPPER | Modifier::NEW_LINE) & Modifier::STRONG_EMPHASIS_WRAPPER == 0
        && (Modifier::STRIKETHROUGH_WRAPPER | Modifier::NEW_LINE) & Modifier::CODE_WRAPPER == 0
    ) by (bit_vector);
}

/// A span without the flag `w` keeps lacking it once the start of a source line is taken off.
proof fn lemma_without_new_line(b: u32, w: u32)
    requires
        b & w == 0,
    ensures
        (b & !Modifier::NEW_LINE) & w == 0,
{
    assert(b & w == 0 ==> (b & !Modifier::NEW_LINE) & w == 0) by (bit_vector);
}

proof fn lemma_close_count(p: bool, q: bool, c: Seq<char>, s: DecoStyle, t: DecoStyle)
    ensures
        flagged_count(close_piece(p, q, c, style_wrapper(s)), style_wrapper(t))
            == if p && !q && c.len() > 0 && s == t { 1nat } else { 0nat },
{
    lemma_wrapper_bits(s, t);
    if p && !q && c.len() > 0 {
        lemma_flagged_one(plain(c, Modifier { bits: style_wrapper(s) }), style_wrapper(t));
    }
}

proof fn lemma_open_count(st: bool, o: Seq<char>, s: DecoStyle, nl: bool, tr: bool, t: DecoStyle)
    ensures
        flagged_count(open_piece(st, o, style_wrapper(s), nl, tr).0, style_wrapper(t))
            == if st && o.len() > 0 && s == t { 1nat } else { 0nat },
{
    lemma_wrapper_bits(s, t);
    if st && o.len() > 0 {
        if nl && !tr {
            lemma_flagged_one(plain(o, Modifier { bits: style_wrapper(s) | Modifier::NEW_LINE }), style_wrapper(t));
        } else {
            lemma_flagged_one(plain(o, Modifier { bits: style_wrapper(s) }), style_wrapper(t));
        }
    }
}

/// The flag of style `s` among decoration flags.
pub open spec fn style_flag(f: DecoFlags, s: DecoStyle) -> bool {
    match s {
        DecoStyle::Emphasis => f.emphasis,
        DecoStyle::Strong => f.strong,
        DecoStyle::Code => f.code,
        DecoStyle::Strikethrough => f.strikethrough,
    }
}

#[verifier::rlimit(60)]
proof fn lemma_head_count(out: Seq<SpanView>, f: DecoFlags, v: SpanView, sym: Symbols, s: DecoStyle)
    ensures
        ({
            let w = style_wrapper(s);
            let pf = style_flag(f, s);
            let h = v.modifiers.has(style_bit(s));
            flagged_count(deco_head(out, f, v, sym).0, w) == flagged_count(out, w)
                + (if pf && !h && style_close(sym, s).len() > 0 { 1nat } else { 0nat })
                + (if h && !pf && style_open(sym, s).len() > 0 { 1nat } else { 0nat })
        }),
{
    let w = style_wrapper(s);
    let m = v.modifiers;
    let he = m.has(Modifier::EMPHASIS);
    let hs = m.has(Modifier::STRONG_EMPHASIS);
    let hc = m.has(Modifier::CODE);
    let ht = m.has(Modifier::STRIKETHROUGH);
    let nl = m.has(Modifier::NEW_LINE);
    let out1 = if nl && out.len() > 0 {
        out.update(out.len() - 1, SpanView { content: trim_end_seq(out.last().content), modifiers: out.last().modifiers, source: out.last().source })
    } else {
        out
    };
    assert(flagged_count(out1, w) == flagged_count(out, w)) by {
        if nl && out.len() > 0 {
            assert(out1.drop_last() =~= out.drop_last());
        }
    }
    let c1 = close_piece(f.code, hc, sym.code_close@, Modifier::CODE_WRAPPER);
    let c2 = close_piece(f.strikethrough, ht, sym.strikethrough_close@, Modifier::STRIKETHROUGH_WRAPPER);
    let c3 = close_piece(f.strong, hs, sym.strong_close@, Modifier::STRONG_EMPHASIS_WRAPPER);
    let c4 = close_piece(f.emphasis, he, sym.emphasis_close@, Modifier::EMPHASIS_WRAPPER);
    let (o1, t1) = open_piece(he && !f.emphasis, sym.emphasis_open@, Modifier::EMPHASIS_WRAPPER, nl, false);
    let (o2, t2) = open_piece(hs && !f.strong, sym.strong_open@, Modifier::STRONG_EMPHASIS_WRAPPER, nl, t1);
    let (o3, t3) = open_piece(ht && !f.strikethrough, sym.strikethrough_open@, Modifier::STRIKETHROUGH_WRAPPER, nl, t2);
    let (o4, t4) = open_piece(hc && !f.code, sym.code_open@, Modifier::CODE_WRAPPER, nl, t3);
    lemma_close_count(f.code, hc, sym.code_close@, DecoStyle::Code, s);
    lemma_close_count(f.strikethrough, ht, sym.strikethrough_close@, DecoStyle::Strikethrough, s);
    lemma_close_count(f.strong, hs, sym.strong_close@, DecoStyle::Strong, s);
    lemma_close_count(f.emphasis, he, sym.emphasis_close@, DecoStyle::Emphasis, s);
    lemma_open_count(he && !f.emphasis, sym.emphasis_open@, DecoStyle::Emphasis, nl, false, s);
    lemma_open_count(hs && !f.strong, sym.strong_open@, DecoStyle::Strong, nl, t1, s);
    lemma_open_count(ht && !f.strikethrough, sym.strikethrough_open@, DecoStyle::Strikethrough, nl, t2, s);
    lemma_open_count(hc && !f.code, sym.code_open@, DecoStyle::Code, nl, t3, s);
    let s1 = out1 + c1;
    let s2 = s1 + c2;
    let s3 = s2 + c3;
    let s4 = s3 + c4;
    let s5 = s4 + o1;
    let s6 = s5 + o2;
    let s7 = s6 + o3;
    let s8 = s7 + o4;
    lemma_flagged_add(out1, c1, w);
    lemma_flagged_add(s1, c2, w);
    lemma_flagged_add(s2, c3, w);
    lemma_flagged_add(s3, c4, w);
    lemma_flagged_add(s4, o1, w);
    lemma_flagged_add(s5, o2, w);
    lemma_flagged_add(s6, o3, w);
    lemma_flagged_add(s7, o4, w);
    assert(deco_head(out, f, v, sym).0 == s8);
}

proof fn lemma_tail_count(v: SpanView, t: bool, sym: Symbols, w: u32)
    requires
        v.modifiers.bits & w == 0,
    ensures
        flagged_count(deco_tail(v, t, sym), w) == 0,
{
    let tail = deco_tail(v, t, sym);
    lemma_without_new_line(v.modifiers.bits, w);
    if tail.len() > 0 {
        lemma_flagged_one(tail[0], w);
        assert(tail =~= seq![tail[0]]);
    } else {
        assert(tail =~= Seq::<SpanView>::empty());
    }
}

proof fn lemma_step_count(out: Seq<SpanView>, f: DecoFlags, v: SpanView, sym: Symbols, s: DecoStyle)
    requires
        v.modifiers.bits & style_wrapper(s) == 0,
    ensures
        ({
            let w = style_wrapper(s);
            let pf = style_flag(f, s);
            let h = v.modifiers.has(style_bit(s));
            flagged_count(deco_step(out, f, v, sym).0, w) == flagged_count(out, w)
                + (if pf && !h && style_close(sym, s).len() > 0 { 1nat } else { 0nat })
                + (if h && !pf && style_open(sym, s).len() > 0 { 1nat } else { 0nat })
        }),
        style_flag(deco_step(out, f, v, sym).1, s) == v.modifiers.has(style_bit(s)),
{
    let (head, t) = deco_head(out, f, v, sym);
    lemma_head_count(out, f, v, sym, s);
    lemma_tail_count(v, t, sym, style_wrapper(s));
    lemma_flagged_add(head, deco_tail(v, t, sym), style_wrapper(s));
}

proof fn lemma_fold_count(spans: Seq<SpanView>, n: int, sym: Symbols, s: DecoStyle)
    requires
        0 <= n <= spans.len(),
        forall|i: int| 0 <= i < spans.len() ==> (#[trigger] spans[i]).modifiers.bits & style_wrapper(s) == 0,
    ensures
        ({
            let (out, f) = deco_fold(spans, n, sym);
            let r = style_runs(spans, s, n);
            &&& style_flag(f, s) == (n > 0 && spans[n - 1].modifiers.has(style_bit(s)))
            &&& flagged_count(out, style_wrapper(s))
                + (if style_flag(f, s) && style_close(sym, s).len() > 0 { 1nat } else { 0nat })
                == (if style_open(sym, s).len() > 0 { r } else { 0nat }) + (if style_close(sym, s).len() > 0 { r } else { 0nat })
        }),
    decreases n,
{
    if n > 0 {
        lemma_fold_count(spans, n - 1, sym, s);
        let (out, f) = deco_fold(spans, n - 1, sym);
        lemma_step_count(out, f, spans[n - 1], sym, s);
    } else {
        assert(flagged_count(Seq::<SpanView>::empty(), style_wrapper(s)) == 0);
    }
}

/// Decorators balance: in the decorated spans, each run of spans with a style (emphasis,
/// strong emphasis, code or strikethrough) gets one opening decorator of the style before it
/// and one closing decorator after it (where the mapper's symbol is not empty), so that the
/// decorators of the style number twice its runs; nothing else carries the style's
/// decorator flag. This holds of spans that carry no decorator flags of their own.
pub proof fn decorators_balance(spans: Seq<SpanView>, sym: Symbols, s: DecoStyle)
    requires
        forall|i: int| 0 <= i < spans.len() ==> (#[trigger] spans[i]).modifiers.bits & style_wrapper(s) == 0,
    ensures
        ({
            let r = style_runs(spans, s, spans.len() as int);
            flagged_count(apply_decorators_spec(spans, sym), style_wrapper(s))
                == (if style_open(sym, s).len() > 0 { r } else { 0nat }) + (if style_close(sym, s).len() > 0 { r } else { 0nat })
        }),
{
    let n = spans.len() as int;
    lemma_fold_count(spans, n, sym, s);
    let (out, f) = deco_fold(spans, n, sym);
    let k1 = close_piece(f.code, false, sym.code_close@, Modifier::CODE_WRAPPER);
    let k2 = close_piece(f.strikethrough, false, sym.strikethrough_close@, Modifier::STRIKETHROUGH_WRAPPER);
    let k3 = close_piece(f.strong, false, sym.strong_close@, Modifier::STRONG_EMPHASIS_WRAPPER);
    let k4 = close_piece(f.emphasis, false, sym.emphasis_close@, Modifier::EMPHASIS_WRAPPER);
    let w = style_wrapper(s);
    lemma_close_count(f.code, false, sym.code_close@, DecoStyle::Code, s);
    lemma_close_count(f.strikethrough, false, sym.strikethrough_close@, DecoStyle::Strikethrough, s);
    lemma_close_count(f.strong, false, sym.strong_close@, DecoStyle::Strong, s);
    lemma_close_count(f.emphasis, false, sym.emphasis_close@, DecoStyle::Emphasis, s);
    lemma_flagged_add(out, k1, w);
    lemma_flagged_add(out + k1, k2, w);
    lemma_flagged_add(out + k1 + k2, k3, w);
    lemma_flagged_add(out + k1 + k2 + k3, k4, w);
}

} // verus!
