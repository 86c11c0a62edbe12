//! Wrapping of spans into lines of a maximum display width.
use vstd::prelude::*;

use crate::modifier::Modifier;
use crate::span::{SpanView, Span, spans_view, plain, lemma_spans_view_push, copy_source, copy_spans};
use crate::text::{
    trim_seq, trim_start_seq, trim_end_seq, first_word, trim_inplace, trim_start_inplace,
    trim_end_inplace, chars_of, first_word_of, string_of_range, first_non_ws_index,
    lemma_first_non_ws,
};
use crate::width::{display_width, str_width};
use crate::link_tracker::{
    LinkTracker, TrackedUrl, TrackedUrlView, TrackerView, track_spec, carriage_return_spec, mid_link,
    urls_view, lemma_urls_view_push,
};
use crate::text::{repeat_seq, repeat_str, is_ws, word_len};

verus! {

/// The lines into which `textwrap::wrap` breaks `text` for the given width, breaking long
/// words and without hyphenation.
pub uninterp spec fn textwrap_lines(text: Seq<char>, width: usize) -> Seq<Seq<char>>;

/// The views of a sequence of strings.
pub open spec fn strings_view(v: Seq<String>) -> Seq<Seq<char>> {
    v.map_values(|s: String| s@)
}

/// `textwrap::wrap` with `break_words(true)` and `WordSplitter::NoHyphenation`.
///
/// Trusted: the lines are the named result for `text` and `width`; and the first line (if
/// any) is a prefix of `text`. The crate's source shows the latter: the text is split at line
/// feeds, and the lines of each piece are slices of it that start where the previous one
/// ended, the first at its start, with trailing whitespace cut, and no hyphen is added
/// without hyphenation.
///
/// No bound on the width of the lines is claimed: the optimal-fit algorithm that textwrap
/// uses by default weighs an overflowing line against an extra line, and can keep a line
/// longer than `width` (two 50-character words at width 100 stay on one line).
#[verifier::external_body]
pub(crate) fn wrap_text(text: &str, width: usize) -> (lines: Vec<String>)
    ensures
        strings_view(lines@) == textwrap_lines(text@, width),
        lines@.len() > 0 ==> lines@[0]@.len() <= text@.len()
            && text@.take(lines@[0]@.len() as int) == lines@[0]@,
{
    let options = textwrap::Options::new(width).break_words(true).word_splitter(
        textwrap::WordSplitter::NoHyphenation,
    );
    textwrap::wrap(text, options).into_iter().map(|line| line.into_owned()).collect()
}

/// `v` with its content replaced by `c`.
pub open spec fn with_content(v: SpanView, c: Seq<char>) -> SpanView {
    SpanView { content: c, modifiers: v.modifiers, source: v.source }
}


/// The state of line wrapping: the finished lines, the line being filled, and whether the
/// last line was ended by a source line break.
pub struct WrapState {
    pub lines: Seq<Seq<SpanView>>,
    pub line: Seq<SpanView>,
    pub after_newline: bool,
}

/// A finished line loses the whitespace at its two ends.
pub open spec fn trim_line(line: Seq<SpanView>) -> Seq<SpanView> {
    if line.len() == 1 {
        line.update(0, with_content(line[0], trim_seq(line[0].content)))
    } else if line.len() > 1 {
        let a = line.update(0, with_content(line[0], trim_start_seq(line[0].content)));
        a.update(a.len() - 1, with_content(a[a.len() - 1], trim_end_seq(a[a.len() - 1].content)))
    } else {
        line
    }
}

/// End the current line.
pub open spec fn cr(st: WrapState) -> WrapState {
    WrapState { lines: st.lines.push(trim_line(st.line)), line: Seq::empty(), after_newline: st.after_newline }
}

/// End the current line as it is, without trimming it.
pub open spec fn end_line(st: WrapState) -> WrapState {
    WrapState { lines: st.lines.push(st.line), line: Seq::empty(), after_newline: st.after_newline }
}

/// Append `v` to the current line.
pub open spec fn push(st: WrapState, v: SpanView) -> WrapState {
    WrapState { lines: st.lines, line: st.line.push(v), after_newline: st.after_newline }
}

/// The columns that `v` counts for: none for a URL that will be hidden.
pub open spec fn span_cols(v: SpanView, hide_urls: bool) -> usize {
    if hide_urls && v.modifiers.is_hideable_url() {
        0
    } else {
        display_width(v.content)
    }
}

/// The columns of a line: the (saturating) sum of its spans' columns.
pub open spec fn line_cols(line: Seq<SpanView>, hide_urls: bool) -> usize
    decreases line.len(),
{
    if line.len() == 0 {
        0
    } else {
        line_cols(line.drop_last(), hide_urls).saturating_add(span_cols(line.last(), hide_urls))
    }
}

pub open spec fn ends_with_space(s: Seq<char>) -> bool {
    s.len() > 0 && s.last() == ' '
}

/// Place the parts `parts[i..]` of a span broken by textwrap, with `cols` columns used on the
/// current line.
pub open spec fn push_parts(
    st: WrapState,
    parts: Seq<Seq<char>>,
    v: SpanView,
    starting_new_line: bool,
    width: u16,
    cols: usize,
    i: int,
) -> WrapState
    decreases parts.len() - i,
{
    if i < 0 || i >= parts.len() {
        st
    } else {
        let c0 = if i == parts.len() - 1 && ends_with_space(v.content) {
            parts[i].push(' ')
        } else {
            parts[i]
        };
        let c = if i == 0 && starting_new_line && !v.modifiers.has(Modifier::NEW_LINE) {
            trim_start_seq(c0)
        } else {
            c0
        };
        let pw = display_width(c);
        let over = cols + pw > width;
        let st1 = if over { cr(st) } else { st };
        let cols1: usize = if over { 0 } else { cols };
        let m = if i == 0 { v.modifiers } else { Modifier { bits: v.modifiers.bits & !Modifier::NEW_LINE } };
        push_parts(push(st1, SpanView { content: c, modifiers: m, source: v.source }), parts, v, starting_new_line, width, cols1.saturating_add(pw), i + 1)
    }
}

/// Place a span that does not fit on the current line, which has `cols` columns used.
pub open spec fn place_overflowing(st: WrapState, v: SpanView, cols: usize, width: u16) -> WrapState {
    let starting_new_line = st.line.len() > 0;
    let rem0: u16 = if cols >= width { 0 } else { (width - cols) as u16 };
    let st1 = if rem0 == 0 { cr(st) } else { st };
    let rem1: u16 = if rem0 == 0 { width } else { rem0 };
    let fww: usize = match first_word(v.content) {
        Some(w) => display_width(w),
        None => 0,
    };
    let new_line_for_word = starting_new_line && fww > rem1 && fww <= width;
    let st2 = if new_line_for_word { cr(st1) } else { st1 };
    let rem2: u16 = if new_line_for_word { width } else { rem1 };
    if display_width(v.content) <= rem2 {
        push(st2, v)
    } else {
        let parts = textwrap_lines(v.content, rem2 as usize);
        if parts.len() == 0 {
            st2
        } else {
            let first = if new_line_for_word { trim_start_seq(parts[0]) } else { parts[0] };
            let st3 = cr(push(st2, SpanView { content: first, modifiers: v.modifiers, source: v.source }));
            let rest = trim_start_seq(v.content.skip(parts[0].len() as int));
            push_parts(st3, textwrap_lines(rest, width as usize), v, starting_new_line, width, 0, 0)
        }
    }
}

/// Whether the current line ends with the opening parenthesis of a link URL.
pub open spec fn ends_with_url_paren(line: Seq<SpanView>) -> bool {
    line.len() > 0 && line.last().modifiers.has(Modifier::LINK_URL_WRAPPER) && line.last().content
        == seq!['(']
}

/// Place a span (after line-break handling) on the current line or on new lines.
pub open spec fn place(st: WrapState, v: SpanView, width: u16, hide_urls: bool) -> WrapState {
    let sw = span_cols(v, hide_urls);
    let cols = line_cols(st.line, hide_urls);
    let over = cols + sw > width;
    let is_url = over && v.modifiers.has(Modifier::LINK_URL);
    let paren = ends_with_url_paren(st.line);
    let st1 = if is_url {
        if paren {
            push(end_line(WrapState { lines: st.lines, line: st.line.drop_last(), after_newline: st.after_newline }), st.line.last())
        } else {
            end_line(st)
        }
    } else {
        st
    };
    let cols1: usize = if is_url { if paren { 1 } else { 0 } } else { cols };
    let over1 = if is_url { cols1 + sw > width } else { over };
    if over1 {
        place_overflowing(st1, v, cols1, width)
    } else {
        push(st1, v)
    }
}

/// Handle one input span.
pub open spec fn step(st: WrapState, s: SpanView, width: u16, hide_urls: bool) -> WrapState {
    let st1 = if s.modifiers.has(Modifier::NEW_LINE) {
        let line = if st.line.len() > 0 {
            st.line.update(st.line.len() - 1, with_content(st.line.last(), trim_end_seq(st.line.last().content)))
        } else {
            st.line
        };
        let c = cr(WrapState { lines: st.lines, line, after_newline: st.after_newline });
        WrapState { lines: c.lines, line: c.line, after_newline: true }
    } else {
        st
    };
    if st1.after_newline && s.content.len() > 0 {
        place(WrapState { lines: st1.lines, line: st1.line, after_newline: false }, with_content(s, trim_start_seq(s.content)), width, hide_urls)
    } else {
        place(st1, s, width, hide_urls)
    }
}

/// The state after handling the first `n` spans.
pub open spec fn wrap_fold(spans: Seq<SpanView>, n: int, width: u16, hide_urls: bool) -> WrapState
    decreases n,
{
    if n <= 0 {
        WrapState { lines: Seq::empty(), line: Seq::empty(), after_newline: false }
    } else {
        step(wrap_fold(spans, n - 1, width, hide_urls), spans[n - 1], width, hide_urls)
    }
}

/// The lines into which spans are wrapped for `width` columns.
pub open spec fn wrap_lines(spans: Seq<SpanView>, width: u16, hide_urls: bool) -> Seq<Seq<SpanView>> {
    let st = wrap_fold(spans, spans.len() as int, width, hide_urls);
    if st.line.len() > 0 {
        cr(st).lines
    } else {
        st.lines
    }
}


/// Lines of spans being wrapped: the finished lines and the line being filled.
pub struct WrappedLines {
    lines: Vec<Vec<Span>>,
    line: Vec<Span>,
    after_newline: bool,
}

/// The views of a sequence of lines of spans.
pub open spec fn lines_view(v: Seq<Vec<Span>>) -> Seq<Seq<SpanView>> {
    v.map_values(|l: Vec<Span>| spans_view(l@))
}

impl View for WrappedLines {
    type V = WrapState;

    closed spec fn view(&self) -> WrapState {
        WrapState {
            lines: lines_view(self.lines@),
            line: spans_view(self.line@),
            after_newline: self.after_newline,
        }
    }
}

pub proof fn lemma_lines_view_push(s: Seq<Vec<Span>>, x: Vec<Span>)
    ensures
        lines_view(s.push(x)) == lines_view(s).push(spans_view(x@)),
{
    assert(lines_view(s.push(x)) =~= lines_view(s).push(spans_view(x@)));
}

/// Replace the content of `line[i]` by its trimmed content (`how`: 0 both ends, 1 start, 2 end).
fn trim_span_at(line: &mut Vec<Span>, i: usize, how: u8)
    requires
        i < old(line).len(),
    ensures
        final(line).len() == old(line).len(),
        spans_view(final(line)@) == spans_view(old(line)@).update(
            i as int,
            with_content(
                old(line)@[i as int]@,
                if how == 0 {
                    trim_seq(old(line)@[i as int]@.content)
                } else if how == 1 {
                    trim_start_seq(old(line)@[i as int]@.content)
                } else {
                    trim_end_seq(old(line)@[i as int]@.content)
                },
            ),
        ),
{
    let mut s = line[i].copy();
    if how == 0 {
        trim_inplace(&mut s.content);
    } else if how == 1 {
        trim_start_inplace(&mut s.content);
    } else {
        trim_end_inplace(&mut s.content);
    }
    let ghost old_line = line@;
    line.set(i, s);
    assert(spans_view(line@) =~= spans_view(old_line).update(i as int, line@[i as int]@));
}

impl WrappedLines {
    pub fn new() -> (w: WrappedLines)
        ensures
            w@ == (WrapState { lines: Seq::empty(), line: Seq::empty(), after_newline: false }),
    {
        let w = WrappedLines { lines: Vec::new(), line: Vec::new(), after_newline: false };
        assert(w@.lines =~= Seq::empty());
        assert(w@.line =~= Seq::empty());
        w
    }

    /// End the current line, trimming whitespace at its two ends.
    pub fn carriage_return(&mut self)
        ensures
            final(self)@ == cr(old(self)@),
    {
        let span_count = self.line.len();
        if span_count == 1 {
            trim_span_at(&mut self.line, 0, 0);
        } else if span_count > 1 {
            trim_span_at(&mut self.line, 0, 1);
            trim_span_at(&mut self.line, span_count - 1, 2);
        }
        let mut taken: Vec<Span> = Vec::new();
        std::mem::swap(&mut taken, &mut self.line);
        let ghost old_lines = self.lines@;
        self.lines.push(taken);
        proof {
            lemma_lines_view_push(old_lines, taken);
            assert(spans_view(self.line@) =~= Seq::empty());
        }
    }

    /// End the current line as it is.
    pub fn break_line(&mut self)
        ensures
            final(self)@ == end_line(old(self)@),
    {
        let mut taken: Vec<Span> = Vec::new();
        std::mem::swap(&mut taken, &mut self.line);
        let ghost old_lines = self.lines@;
        self.lines.push(taken);
        proof {
            lemma_lines_view_push(old_lines, taken);
            assert(spans_view(self.line@) =~= Seq::empty());
        }
    }

    /// Append a span to the current line.
    pub fn push_span(&mut self, span: Span)
        ensures
            final(self)@ == push(old(self)@, span@),
    {
        let ghost old_line = self.line@;
        self.line.push(span);
        proof { lemma_spans_view_push(old_line, span); }
    }
}


/// The columns that `span` counts for on a line.
fn span_columns(span: &Span, hide_urls: bool) -> (w: usize)
    ensures
        w == span_cols(span@, hide_urls),
{
    if hide_urls && span.modifiers.hideable_url() {
        0
    } else {
        str_width(span.content.as_str())
    }
}

/// The columns used on a line.
fn line_columns(line: &Vec<Span>, hide_urls: bool) -> (w: usize)
    ensures
        w == line_cols(spans_view(line@), hide_urls),
{
    let mut w: usize = 0;
    for i in 0..line.len()
        invariant
            w == line_cols(spans_view(line@).take(i as int), hide_urls),
    {
        let ghost t = spans_view(line@).take(i + 1);
        assert(t.drop_last() =~= spans_view(line@).take(i as int));
        w = w.saturating_add(span_columns(&line[i], hide_urls));
    }
    assert(spans_view(line@).take(line@.len() as int) =~= spans_view(line@));
    w
}

/// Place the parts of a span broken by textwrap (see [`push_parts`]).
fn push_parts_exec(
    lines: &mut WrappedLines,
    parts: &Vec<String>,
    v: &Span,
    starting_new_line: bool,
    width: u16,
)
    ensures
        final(lines)@ == push_parts(old(lines)@, strings_view(parts@), v@, starting_new_line, width, 0, 0),
{
    let ghost goal = push_parts(lines@, strings_view(parts@), v@, starting_new_line, width, 0, 0);
    let n = parts.len();
    let v_chars = chars_of(v.content.as_str());
    let ends_space = v_chars.len() > 0 && v_chars[v_chars.len() - 1] == ' ';
    let mut cols: usize = 0;
    let mut copied_newline = false;
    for i in 0..n
        invariant
            n == parts@.len(),
            v_chars@ == v@.content,
            ends_space == ends_with_space(v@.content),
            copied_newline == (i > 0),
            goal == push_parts(lines@, strings_view(parts@), v@, starting_new_line, width, cols, i as int),
    {
        let mut part_content = parts[i].clone();
        if i == n - 1 && ends_space {
            part_content.push(' ');
        }
        if i == 0 && starting_new_line && !v.modifiers.contains(Modifier::NEW_LINE) {
            trim_start_inplace(&mut part_content);
        }
        let part_width = str_width(part_content.as_str());
        if cols > width as usize || part_width > width as usize - cols {
            lines.carriage_return();
            cols = 0;
        }
        let mut modifiers = v.modifiers;
        if !copied_newline {
            copied_newline = true;
        } else {
            modifiers.remove(Modifier::NEW_LINE);
        }
        lines.push_span(Span { content: part_content, modifiers, source_content: copy_source(&v.source_content) });
        cols = cols.saturating_add(part_width);
    }
}


/// The display width of the first word of `s`, or 0 when it has none.
fn first_word_width(s: &String) -> (w: usize)
    ensures
        w == (match first_word(s@) {
            Some(word) => display_width(word),
            None => 0,
        }),
{
    let v = chars_of(s.as_str());
    match first_word_of(&v) {
        Some(word) => str_width(word.as_str()),
        None => 0,
    }
}

/// Place a span that does not fit on the current line (see [`place_overflowing`]).
fn place_overflowing_exec(lines: &mut WrappedLines, v: Span, cols: usize, width: u16)
    ensures
        final(lines)@ == place_overflowing(old(lines)@, v@, cols, width),
{
    let starting_new_line = lines.line.len() > 0;
    let mut remaining_width: u16 = if cols >= width as usize { 0 } else { (width as usize - cols) as u16 };
    if remaining_width == 0 {
        lines.carriage_return();
        remaining_width = width;
    }
    let mut trim_first_part = false;
    if starting_new_line {
        let fww = first_word_width(&v.content);
        if fww > remaining_width as usize && fww <= width as usize {
            lines.carriage_return();
            remaining_width = width;
            trim_first_part = true;
        }
    }
    if str_width(v.content.as_str()) <= remaining_width as usize {
        lines.push_span(v);
        return;
    }
    let parts = wrap_text(v.content.as_str(), remaining_width as usize);
    if parts.len() == 0 {
        return;
    }
    let mut first_content = parts[0].clone();
    if trim_first_part {
        trim_start_inplace(&mut first_content);
    }
    lines.push_span(Span { content: first_content, modifiers: v.modifiers, source_content: copy_source(&v.source_content) });
    lines.carriage_return();
    let orig = chars_of(v.content.as_str());
    let first_len = chars_of(parts[0].as_str()).len();
    let mut rest = string_of_range(&orig, first_len, orig.len());
    trim_start_inplace(&mut rest);
    proof {
        assert(orig@.subrange(first_len as int, orig@.len() as int) == v@.content.skip(first_len as int));
    }
    let parts2 = wrap_text(rest.as_str(), width as usize);
    push_parts_exec(lines, &parts2, &v, starting_new_line, width);
}

/// Place a span on the current line or on new lines (see [`place`]).
fn place_exec(lines: &mut WrappedLines, v: Span, width: u16, hide_urls: bool)
    ensures
        final(lines)@ == place(old(lines)@, v@, width, hide_urls),
{
    let span_width = span_columns(&v, hide_urls);
    let mut line_width = line_columns(&lines.line, hide_urls);
    let mut would_overflow = line_width > width as usize || span_width > width as usize - line_width;
    if would_overflow && v.modifiers.contains(Modifier::LINK_URL) {
        let n = lines.line.len();
        let move_paren = n > 0 && lines.line[n - 1].modifiers.contains(Modifier::LINK_URL_WRAPPER)
            && lines.line[n - 1].content == "(".to_owned();
        proof {
            reveal_strlit("(");
            assert("("@ =~= seq!['(']);
            if n > 0 {
                assert(lines@.line.last() == lines.line@[n - 1]@);
            }
            assert(move_paren == ends_with_url_paren(lines@.line));
        }
        if move_paren {
            let ghost l0 = lines@;
            let paren = lines.line.pop().unwrap();
            proof {
                assert(spans_view(lines.line@) =~= l0.line.drop_last());
            }
            lines.break_line();
            lines.push_span(paren);
            line_width = 1;
        } else {
            lines.break_line();
            line_width = 0;
        }
        would_overflow = line_width > width as usize || span_width > width as usize - line_width;
    }
    if would_overflow {
        place_overflowing_exec(lines, v, line_width, width);
    } else {
        lines.push_span(v);
    }
}


/// Wrap spans into lines of at most `width` columns.
///
/// A span that starts a source line ([`Modifier::NEW_LINE`]) starts a new output line; spans
/// too wide for what is left of a line are broken with textwrap; a link URL that does not fit
/// moves to a new line together with its opening parenthesis, and the line it leaves keeps its
/// whitespace. With `hide_urls`, link URLs
/// that will be hidden take no columns. Used for paragraphs and for table cells.
pub fn wrap_md_spans_lines(width: u16, spans: Vec<Span>, hide_urls: bool) -> (r: Vec<Vec<Span>>)
    ensures
        lines_view(r@) == wrap_lines(spans_view(spans@), width, hide_urls),
{
    let mut lines = WrappedLines::new();
    for i in 0..spans.len()
        invariant
            lines@ == wrap_fold(spans_view(spans@), i as int, width, hide_urls),
    {
        let mut span = spans[i].copy();
        if span.modifiers.contains(Modifier::NEW_LINE) {
            let n = lines.line.len();
            if n > 0 {
                trim_span_at(&mut lines.line, n - 1, 2);
            }
            lines.carriage_return();
            lines.after_newline = true;
        }
        if lines.after_newline && !span.content.as_str().is_empty() {
            trim_start_inplace(&mut span.content);
            lines.after_newline = false;
        }
        place_exec(&mut lines, span, width, hide_urls);
    }
    if lines.line.len() > 0 {
        lines.carriage_return();
    }
    lines.lines
}


/// Lines without the empty ones.
pub open spec fn drop_empty(ls: Seq<Seq<SpanView>>) -> Seq<Seq<SpanView>>
    decreases ls.len(),
{
    if ls.len() == 0 {
        ls
    } else if ls.last().len() == 0 {
        drop_empty(ls.drop_last())
    } else {
        drop_empty(ls.drop_last()).push(ls.last())
    }
}

/// The tracker after it has seen the spans `line[..n]`.
pub open spec fn track_line(t: TrackerView, line: Seq<SpanView>, n: int) -> TrackerView
    decreases n,
{
    if n <= 0 {
        t
    } else {
        track_spec(track_line(t, line, n - 1), line[n - 1])
    }
}

/// Link columns shifted right by `by`.
pub open spec fn shift_url(u: TrackedUrlView, by: u16) -> TrackedUrlView {
    match u {
        TrackedUrlView::Link { start, lines, end, url, is_reference } => TrackedUrlView::Link {
            start: start.saturating_add(by),
            lines,
            end: end.saturating_add(by),
            url,
            is_reference,
        },
        _ => u,
    }
}

/// A wrapped line: its spans and the links and images that end on it.
pub struct WrappedLine {
    pub spans: Vec<Span>,
    pub urls: Vec<TrackedUrl>,
}

/// The mathematical value of a [`WrappedLine`].
pub struct WrappedLineView {
    pub spans: Seq<SpanView>,
    pub urls: Seq<TrackedUrlView>,
}

impl View for WrappedLine {
    type V = WrappedLineView;

    open spec fn view(&self) -> WrappedLineView {
        WrappedLineView { spans: spans_view(self.spans@), urls: urls_view(self.urls@) }
    }
}

pub open spec fn wrapped_view(s: Seq<WrappedLine>) -> Seq<WrappedLineView> {
    s.map_values(|w: WrappedLine| w@)
}

/// The modifiers of the padding that fills the rest of a line inside a link.
pub open spec fn link_fill_modifiers() -> Modifier {
    Modifier { bits: Modifier::LINK | Modifier::LINK_DESCRIPTION }
}

/// Annotate the lines `lines[i..]` with the URLs that the tracker finds, starting from `t`.
pub open spec fn annotate(t: TrackerView, lines: Seq<Seq<SpanView>>, i: int, avail: u16, shift: u16) -> Seq<WrappedLineView>
    decreases lines.len() - i,
{
    if i < 0 || i >= lines.len() {
        Seq::empty()
    } else {
        let t1 = track_line(t, lines[i], lines[i].len() as int);
        let next = if i + 1 < lines.len() && lines[i + 1].len() > 0 {
            Some(lines[i + 1][0].modifiers)
        } else {
            None
        };
        let (t2, _) = carriage_return_spec(t1, next);
        let spans = match mid_link(t1) {
            Some(off) => if off < avail {
                lines[i].push(SpanView { content: repeat_seq(seq![' '], (avail - off) as nat), modifiers: link_fill_modifiers(), source: None })
            } else {
                lines[i]
            },
            None => lines[i],
        };
        let urls = t2.urls.map_values(|u: TrackedUrlView| shift_url(u, shift));
        seq![WrappedLineView { spans, urls }] + annotate(TrackerView { urls: Seq::empty(), ..t2 }, lines, i + 1, avail, shift)
    }
}

/// The columns left for content after a prefix of `prefix_width` columns, at least one.
pub open spec fn available_width(width: u16, prefix_width: usize) -> u16 {
    let p = prefix_width as u16;
    if width <= p { 1 } else { (width - p) as u16 }
}

/// The wrapped lines of a paragraph, with the URLs found on each.
pub open spec fn wrap_md_spans_spec(width: u16, spans: Seq<SpanView>, prefix_width: usize, hide_urls: bool) -> Seq<WrappedLineView> {
    let avail = available_width(width, prefix_width);
    let t0 = TrackerView { offset: 0, urls: Seq::empty(), state: crate::link_tracker::LinkStateView::Idle, nested: crate::link_tracker::LinkStateView::Idle, hide_urls };
    annotate(t0, drop_empty(wrap_lines(spans, avail, hide_urls)), 0, avail, prefix_width as u16)
}


proof fn lemma_drop_empty(ls: Seq<Seq<SpanView>>)
    ensures
        forall|k: int| 0 <= k < drop_empty(ls).len() ==> (#[trigger] drop_empty(ls)[k]).len() > 0,
    decreases ls.len(),
{
    if ls.len() > 0 {
        lemma_drop_empty(ls.drop_last());
        let d = drop_empty(ls.drop_last());
        if ls.last().len() > 0 {
            assert forall|k: int| 0 <= k < d.push(ls.last()).len() implies (#[trigger] d.push(ls.last())[k]).len() > 0 by {
                if k < d.len() {
                    assert(d.push(ls.last())[k] == d[k]);
                }
            }
        }
    }
}

proof fn lemma_annotate(t: TrackerView, lines: Seq<Seq<SpanView>>, i: int, avail: u16, shift: u16)
    requires
        0 <= i <= lines.len(),
        forall|k: int| 0 <= k < lines.len() ==> (#[trigger] lines[k]).len() > 0,
    ensures
        annotate(t, lines, i, avail, shift).len() == lines.len() - i,
        forall|k: int| 0 <= k < annotate(t, lines, i, avail, shift).len()
            ==> (#[trigger] annotate(t, lines, i, avail, shift)[k]).spans.len() >= lines[i + k].len(),
    decreases lines.len() - i,
{
    if i < lines.len() {
        let t1 = track_line(t, lines[i], lines[i].len() as int);
        let next = if i + 1 < lines.len() && lines[i + 1].len() > 0 { Some(lines[i + 1][0].modifiers) } else { None };
        let (t2, _) = carriage_return_spec(t1, next);
        let t3 = TrackerView { urls: Seq::empty(), ..t2 };
        lemma_annotate(t3, lines, i + 1, avail, shift);
        let a = annotate(t, lines, i, avail, shift);
        let rest = annotate(t3, lines, i + 1, avail, shift);
        assert forall|k: int| 0 <= k < a.len() implies (#[trigger] a[k]).spans.len() >= lines[i + k].len() by {
            if k > 0 {
                assert(a[k] == rest[k - 1]);
            }
        }
    }
}

/// `s` holds no whitespace.
pub open spec fn no_ws(s: Seq<char>) -> bool {
    forall|i: int| 0 <= i < s.len() ==> !is_ws(#[trigger] s[i])
}

/// A span that wrapping never has to break: a non-empty run of non-whitespace characters
/// no wider than the line, and not a link URL (which wrapping moves to a line of its own).
pub open spec fn unbreakable_span(v: SpanView, width: u16) -> bool {
    &&& v.content.len() > 0
    &&& no_ws(v.content)
    &&& display_width(v.content) <= width
    &&& !v.modifiers.has(Modifier::LINK_URL)
}

/// The finished lines and the current line all fit in `width` columns, and the current
/// line holds no whitespace.
pub open spec fn all_fit(st: WrapState, width: u16, hide_urls: bool) -> bool {
    &&& forall|i: int| 0 <= i < st.lines.len() ==> line_cols(#[trigger] st.lines[i], hide_urls) <= width
    &&& line_cols(st.line, hide_urls) <= width
    &&& forall|k: int| 0 <= k < st.line.len() ==> no_ws((#[trigger] st.line[k]).content)
}

proof fn lemma_no_ws_facts(s: Seq<char>)
    requires
        no_ws(s),
    ensures
        trim_start_seq(s) == s,
        trim_end_seq(s) == s,
        trim_seq(s) == s,
        word_len(s) == s.len(),
        s.len() > 0 ==> first_word(s) == Some(s),
    decreases s.len(),
{
    if s.len() > 0 {
        assert(!is_ws(s[0]));
        assert(!is_ws(s.last()));
        assert(no_ws(s.drop_first())) by {
            assert forall|i: int| 0 <= i < s.drop_first().len() implies !is_ws(#[trigger] s.drop_first()[i]) by {
                assert(s.drop_first()[i] == s[i + 1]);
            }
        }
        lemma_no_ws_facts(s.drop_first());
        assert(s.take(s.len() as int) =~= s);
    }
}

proof fn lemma_trim_line_keeps(line: Seq<SpanView>)
    requires
        forall|k: int| 0 <= k < line.len() ==> no_ws((#[trigger] line[k]).content),
    ensures
        trim_line(line) == line,
{
    if line.len() >= 1 {
        lemma_no_ws_facts(line[0].content);
        lemma_no_ws_facts(line[line.len() - 1].content);
        assert(with_content(line[0], trim_seq(line[0].content)) == line[0]);
        assert(with_content(line[0], trim_start_seq(line[0].content)) == line[0]);
        let a = line.update(0, with_content(line[0], trim_start_seq(line[0].content)));
        assert(a =~= line);
        assert(with_content(line[line.len() - 1], trim_end_seq(line[line.len() - 1].content)) == line[line.len() - 1]);
        assert(line.update(0, line[0]) =~= line);
        assert(line.update(line.len() - 1, line[line.len() - 1]) =~= line);
    }
}

proof fn lemma_line_cols_push(line: Seq<SpanView>, v: SpanView, hide_urls: bool)
    ensures
        line_cols(line.push(v), hide_urls) == line_cols(line, hide_urls).saturating_add(span_cols(v, hide_urls)),
{
    assert(line.push(v).drop_last() =~= line);
}

proof fn lemma_cr_fits(st: WrapState, width: u16, hide_urls: bool)
    requires
        all_fit(st, width, hide_urls),
    ensures
        all_fit(cr(st), width, hide_urls),
        cr(st).line.len() == 0,
{
    lemma_trim_line_keeps(st.line);
    let c = cr(st);
    assert forall|i: int| 0 <= i < c.lines.len() implies line_cols(#[trigger] c.lines[i], hide_urls) <= width by {
        if i < st.lines.len() {
            assert(c.lines[i] == st.lines[i]);
        }
    }
}

proof fn lemma_push_fits(st: WrapState, v: SpanView, width: u16, hide_urls: bool)
    requires
        all_fit(st, width, hide_urls),
        no_ws(v.content),
        line_cols(st.line, hide_urls) + span_cols(v, hide_urls) <= width,
    ensures
        all_fit(push(st, v), width, hide_urls),
{
    lemma_line_cols_push(st.line, v, hide_urls);
    let p = push(st, v);
    assert forall|k: int| 0 <= k < p.line.len() implies no_ws((#[trigger] p.line[k]).content) by {
        if k < st.line.len() {
            assert(p.line[k] == st.line[k]);
        }
    }
}

proof fn lemma_place_fits(st: WrapState, v: SpanView, width: u16, hide_urls: bool)
    requires
        all_fit(st, width, hide_urls),
        unbreakable_span(v, width),
    ensures
        all_fit(place(st, v, width, hide_urls), width, hide_urls),
{
    let sw = span_cols(v, hide_urls);
    let cols = line_cols(st.line, hide_urls);
    lemma_no_ws_facts(v.content);
    assert(sw <= display_width(v.content));
    if cols + sw > width {
        assert(sw == display_width(v.content));
        let starting_new_line = st.line.len() > 0;
        if cols >= width {
            lemma_cr_fits(st, width, hide_urls);
            let st1 = cr(st);
            assert(line_cols(st1.line, hide_urls) == 0);
            lemma_push_fits(st1, v, width, hide_urls);
        } else {
            let rem1: u16 = (width - cols) as u16;
            if starting_new_line {
                lemma_cr_fits(st, width, hide_urls);
                let st2 = cr(st);
                assert(line_cols(st2.line, hide_urls) == 0);
                lemma_push_fits(st2, v, width, hide_urls);
            } else {
                assert(st.line =~= Seq::<SpanView>::empty());
                assert(cols == 0);
            }
        }
    } else {
        lemma_push_fits(st, v, width, hide_urls);
    }
}

proof fn lemma_step_fits(st: WrapState, s: SpanView, width: u16, hide_urls: bool)
    requires
        all_fit(st, width, hide_urls),
        unbreakable_span(s, width),
    ensures
        all_fit(step(st, s, width, hide_urls), width, hide_urls),
{
    lemma_no_ws_facts(s.content);
    assert(with_content(s, trim_start_seq(s.content)) == s);
    if s.modifiers.has(Modifier::NEW_LINE) {
        let line = if st.line.len() > 0 {
            st.line.update(st.line.len() - 1, with_content(st.line.last(), trim_end_seq(st.line.last().content)))
        } else {
            st.line
        };
        if st.line.len() > 0 {
            lemma_no_ws_facts(st.line.last().content);
            assert(with_content(st.line.last(), trim_end_seq(st.line.last().content)) == st.line.last());
            assert(line =~= st.line);
        }
        let st0 = WrapState { lines: st.lines, line, after_newline: st.after_newline };
        lemma_cr_fits(st0, width, hide_urls);
        let c = cr(st0);
        let st1 = WrapState { lines: c.lines, line: c.line, after_newline: true };
        lemma_place_fits(WrapState { lines: st1.lines, line: st1.line, after_newline: false }, s, width, hide_urls);
    } else if st.after_newline {
        lemma_place_fits(WrapState { lines: st.lines, line: st.line, after_newline: false }, s, width, hide_urls);
    } else {
        lemma_place_fits(st, s, width, hide_urls);
    }
}

proof fn lemma_fold_fits(spans: Seq<SpanView>, n: int, width: u16, hide_urls: bool)
    requires
        0 <= n <= spans.len(),
        forall|i: int| 0 <= i < spans.len() ==> unbreakable_span(#[trigger] spans[i], width),
    ensures
        all_fit(wrap_fold(spans, n, width, hide_urls), width, hide_urls),
    decreases n,
{
    if n > 0 {
        lemma_fold_fits(spans, n - 1, width, hide_urls);
        lemma_step_fits(wrap_fold(spans, n - 1, width, hide_urls), spans[n - 1], width, hide_urls);
    }
}

/// Wrapped lines fit the width: every line that wrapping gives takes at most `width`
/// columns, for spans that wrapping never has to break, each a non-empty run of
/// non-whitespace characters no wider than the line and not a link URL. (Where a span is
/// broken, its parts come from textwrap, whose optimal-fit wrapping may leave a line one or
/// more columns too long.)
pub proof fn wrapped_lines_fit_the_width(spans: Seq<SpanView>, width: u16, hide_urls: bool)
    requires
        forall|i: int| 0 <= i < spans.len() ==> unbreakable_span(#[trigger] spans[i], width),
    ensures
        forall|i: int| 0 <= i < wrap_lines(spans, width, hide_urls).len()
            ==> line_cols(#[trigger] wrap_lines(spans, width, hide_urls)[i], hide_urls) <= width,
{
    lemma_fold_fits(spans, spans.len() as int, width, hide_urls);
    let st = wrap_fold(spans, spans.len() as int, width, hide_urls);
    if st.line.len() > 0 {
        lemma_cr_fits(st, width, hide_urls);
    }
}

/// Every wrapped line of a paragraph has spans: empty lines are never handed out.
pub proof fn wrapped_lines_are_never_empty(width: u16, spans: Seq<SpanView>, prefix_width: usize, hide_urls: bool)
    ensures
        forall|k: int| 0 <= k < wrap_md_spans_spec(width, spans, prefix_width, hide_urls).len()
            ==> (#[trigger] wrap_md_spans_spec(width, spans, prefix_width, hide_urls)[k]).spans.len() > 0,
{
    let avail = available_width(width, prefix_width);
    let ls = drop_empty(wrap_lines(spans, avail, hide_urls));
    lemma_drop_empty(wrap_lines(spans, avail, hide_urls));
    let t0 = TrackerView { offset: 0, urls: Seq::empty(), state: crate::link_tracker::LinkStateView::Idle, nested: crate::link_tracker::LinkStateView::Idle, hide_urls };
    lemma_annotate(t0, ls, 0, avail, prefix_width as u16);
}

/// Shift the columns of the links of `urls` right by `by`.
fn shift_urls(urls: Vec<TrackedUrl>, by: u16) -> (r: Vec<TrackedUrl>)
    ensures
        urls_view(r@) == urls_view(urls@).map_values(|u: TrackedUrlView| shift_url(u, by)),
{
    let mut r: Vec<TrackedUrl> = Vec::new();
    let mut it = urls.into_iter();
    let ghost all = urls@;
    for u in iter: it
        invariant
            iter.seq() == all,
            urls_view(r@) == urls_view(all.take(iter.index() as int)).map_values(|u: TrackedUrlView| shift_url(u, by)),
    {
        let ghost k = iter.index();
        let shifted = match u {
            TrackedUrl::Link { start, lines, end, url, is_reference } => TrackedUrl::Link {
                start: start.saturating_add(by),
                lines,
                end: end.saturating_add(by),
                url,
                is_reference,
            },
            other => other,
        };
        let ghost old_r = r@;
        r.push(shifted);
        proof {
            lemma_urls_view_push(old_r, shifted);
            assert(all.take(k + 1) =~= all.take(k as int).push(all[k as int]));
            lemma_urls_view_push(all.take(k as int), all[k as int]);
            assert(urls_view(r@) =~= urls_view(all.take(k + 1)).map_values(|u: TrackedUrlView| shift_url(u, by)));
        }
    }
    assert(all.take(all.len() as int) =~= all);
    r
}


proof fn lemma_lines_view_take_push(s: Seq<Vec<Span>>, i: int)
    requires
        0 <= i < s.len(),
    ensures
        lines_view(s).take(i + 1) == lines_view(s).take(i).push(spans_view(s[i]@)),
{
    assert(lines_view(s).take(i + 1) =~= lines_view(s).take(i).push(spans_view(s[i]@)));
}

/// The non-empty lines among `lines`.
fn drop_empty_lines(lines: Vec<Vec<Span>>) -> (r: Vec<Vec<Span>>)
    ensures
        lines_view(r@) == drop_empty(lines_view(lines@)),
{
    let mut r: Vec<Vec<Span>> = Vec::new();
    let ghost all = lines@;
    let mut it = lines.into_iter();
    for line in iter: it
        invariant
            iter.seq() == all,
            lines_view(r@) == drop_empty(lines_view(all).take(iter.index() as int)),
    {
        let ghost k = iter.index() as int;
        proof {
            lemma_lines_view_take_push(all, k);
            assert(lines_view(all).take(k + 1).drop_last() == lines_view(all).take(k));
        }
        if line.len() > 0 {
            let ghost old_r = r@;
            r.push(line);
            proof { lemma_lines_view_push(old_r, line); }
        }
    }
    assert(lines_view(all).take(all.len() as int) =~= lines_view(all));
    r
}

/// Wrap the spans of a paragraph for `width` columns of which a prefix takes `prefix_width`,
/// and track the links and images on each wrapped line.
///
/// Empty wrapped lines are dropped. A line that ends inside a link description is filled
/// with link-styled spaces up to the available width; link columns are shifted by the prefix.
pub fn wrap_md_spans(width: u16, mdspans: Vec<Span>, prefix_width: usize, hide_urls: bool) -> (r: Vec<WrappedLine>)
    ensures
        wrapped_view(r@) == wrap_md_spans_spec(width, spans_view(mdspans@), prefix_width, hide_urls),
{
    let p = prefix_width as u16;
    let available: u16 = if width <= p { 1 } else { width - p };
    let lines = drop_empty_lines(wrap_md_spans_lines(available, mdspans, hide_urls));
    let ghost lv = lines_view(lines@);
    let mut tracker = LinkTracker::new().hide_urls(hide_urls);
    let mut out: Vec<WrappedLine> = Vec::new();
    let ghost goal = annotate(tracker@, lv, 0, available, p);
    let n = lines.len();
    for i in 0..n
        invariant
            n == lines@.len(),
            lv == lines_view(lines@),
            goal == wrapped_view(out@) + annotate(tracker@, lv, i as int, available, p),
    {
        let ghost t_start = tracker@;
        let line = &lines[i];
        for j in 0..line.len()
            invariant
                tracker@ == track_line(t_start, spans_view(line@), j as int),
        {
            tracker.track(&line[j]);
        }
        let next = if i + 1 < n && lines[i + 1].len() > 0 {
            Some(lines[i + 1][0].modifiers)
        } else {
            None
        };
        proof {
            assert(lv[i as int] == spans_view(line@));
            if i + 1 < n && lines@[i + 1].len() > 0 {
                assert(lv[i + 1] == spans_view(lines@[i + 1]@));
            }
        }
        let mid = tracker.is_mid_link();
        tracker.carriage_return(next);
        let mut spans = copy_spans(line);
        match mid {
            Some(offset) => {
                if offset < available {
                    let ghost old_spans = spans@;
                    let pad = Span::new(repeat_str(" ", (available - offset) as usize), Modifier::new(Modifier::LINK | Modifier::LINK_DESCRIPTION));
                    proof {
                        reveal_strlit(" ");
                        assert(" "@ =~= seq![' ']);
                    }
                    spans.push(pad);
                    proof { lemma_spans_view_push(old_spans, pad); }
                }
            },
            None => {},
        }
        let urls = shift_urls(tracker.take_urls(), p);
        let ghost old_out = out@;
        out.push(WrappedLine { spans, urls });
        proof {
            assert(wrapped_view(out@) =~= wrapped_view(old_out).push(out@.last()@));
        }
    }
    out
}

} // verus!
