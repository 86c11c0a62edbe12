//! What the cursor sees of rendered lines, and what is highlighted: the parts of links,
//! grouped by URL, and the search matches, each with the display columns it takes; every
//! part of the selected link, and the search matches with the one under the cursor.
use vstd::prelude::*;

use crate::lines::Line;
use crate::markdown::spans_text;
use crate::model::{Cursor, CursorPointer};
use crate::modifier::Modifier;
use crate::search::{found_view, needle_view, search_columns, search_text, line_string};
use crate::span::{Span, SpanView, spans_view};
use crate::viewer::{Mark, SectionMarks, SectionMarksView, marks_view};
use crate::width::{display_width, str_width};
use crate::inline::is_kind;

verus! {

/// The identity of `url` among the URLs known so far: its index, or the next index when it
/// is new.
pub open spec fn url_id(urls: Seq<Seq<char>>, url: Seq<char>, k: int) -> int
    decreases urls.len() - k,
{
    if k < 0 || k >= urls.len() {
        urls.len() as int
    } else if urls[k] == url {
        k
    } else {
        url_id(urls, url, k + 1)
    }
}

/// The known URLs with `url` added when it is new.
pub open spec fn with_url(urls: Seq<Seq<char>>, url: Seq<char>) -> Seq<Seq<char>> {
    if url_id(urls, url, 0) == urls.len() { urls.push(url) } else { urls }
}

/// A span is a part of a link when it has the link's source and is a link description or
/// URL.
pub open spec fn is_link_part(v: SpanView) -> bool {
    v.source is Some && v.modifiers.meets(Modifier::LINK_DESCRIPTION | Modifier::LINK_URL)
}

/// The link marks of the first `n` spans of a line, the known URLs after them, and the
/// column where span `n` starts (widths add up, saturating).
pub open spec fn link_fold(spans: Seq<SpanView>, urls: Seq<Seq<char>>, n: int) -> (Seq<Mark>, Seq<Seq<char>>, usize)
    decreases n,
{
    if n <= 0 {
        (Seq::empty(), urls, 0)
    } else {
        let (ms, us, col) = link_fold(spans, urls, n - 1);
        let v = spans[n - 1];
        let end = col.saturating_add(display_width(v.content));
        if is_link_part(v) {
            let src = v.source->Some_0;
            let id = url_id(us, src, 0);
            (ms.push(Mark::Link(id as usize, col as usize, end as usize)), with_url(us, src), end)
        } else {
            (ms, us, end)
        }
    }
}

/// The marks of a line: its link parts, then its search matches.
pub open spec fn line_marks_spec(spans: Seq<SpanView>, urls: Seq<Seq<char>>, needle: Option<Seq<char>>) -> (Seq<Mark>, Seq<Seq<char>>) {
    let (ms, us, _) = link_fold(spans, urls, spans.len() as int);
    let found = search_columns(spans_text(spans), needle);
    (ms + found.map_values(|f: (usize, usize, Seq<char>)| Mark::SearchMatch(f.0, f.1)), us)
}

/// The marks of the first `n` lines, each its own section one line high with its index as
/// id, and the URLs of their links, each once, in order of appearance.
pub open spec fn lines_marks(lines: Seq<Seq<SpanView>>, needle: Option<Seq<char>>, n: int) -> (Seq<SectionMarksView>, Seq<Seq<char>>)
    decreases n,
{
    if n <= 0 {
        (Seq::empty(), Seq::empty())
    } else {
        let (ss, us) = lines_marks(lines, needle, n - 1);
        let (ms, us2) = line_marks_spec(lines[n - 1], us, needle);
        (ss.push(SectionMarksView { id: (n - 1) as usize, height: 1, marks: Some(ms) }), us2)
    }
}

pub open spec fn urls_view(v: Seq<String>) -> Seq<Seq<char>> {
    v.map_values(|s: String| s@)
}

fn find_url(urls: &Vec<String>, url: &String) -> (r: usize)
    ensures
        r == url_id(urls_view(urls@), url@, 0),
{
    let ghost uv = urls_view(urls@);
    let mut k: usize = 0;
    while k < urls.len()
        invariant
            uv == urls_view(urls@),
            k <= urls@.len(),
            url_id(uv, url@, 0) == url_id(uv, url@, k as int),
        decreases urls@.len() - k,
    {
        proof { assert(uv[k as int] == urls@[k as int]@); }
        if is_kind(url, urls[k].as_str()) {
            return k;
        }
        k = k + 1;
    }
    k
}

fn link_marks(spans: &Vec<Span>, urls: &mut Vec<String>) -> (r: Vec<Mark>)
    ensures
        ({
            let (ms, us, _) = link_fold(spans_view(spans@), urls_view(old(urls)@), spans@.len() as int);
            r@ == ms && urls_view(final(urls)@) == us
        }),
{
    let ghost sv = spans_view(spans@);
    let ghost u0 = urls_view(urls@);
    let mut out: Vec<Mark> = Vec::new();
    let mut col: usize = 0;
    for i in 0..spans.len()
        invariant
            sv == spans_view(spans@),
            link_fold(sv, u0, i as int) == (out@, urls_view(urls@), col),
    {
        let span = &spans[i];
        proof { assert(sv[i as int] == span@); }
        let end = col.saturating_add(str_width(span.content.as_str()));
        if span.modifiers.intersects(Modifier::LINK_DESCRIPTION | Modifier::LINK_URL) {
            match &span.source_content {
                Some(src) => {
                    let id = find_url(urls, &src.0);
                    out.push(Mark::Link(id, col, end));
                    if id == urls.len() {
                        let ghost o = urls@;
                        urls.push(src.0.clone());
                        proof { assert(urls_view(urls@) =~= urls_view(o).push(src.0@)); }
                    }
                },
                None => {},
            }
        }
        col = end;
    }
    out
}

fn push_found(ms: &mut Vec<Mark>, found: &Vec<(usize, usize, String)>)
    ensures
        final(ms)@ == old(ms)@ + found_view(found@).map_values(|f: (usize, usize, Seq<char>)| Mark::SearchMatch(f.0, f.1)),
{
    let ghost goal = found_view(found@).map_values(|f: (usize, usize, Seq<char>)| Mark::SearchMatch(f.0, f.1));
    let ghost start = ms@;
    for k in 0..found.len()
        invariant
            goal == found_view(found@).map_values(|f: (usize, usize, Seq<char>)| Mark::SearchMatch(f.0, f.1)),
            ms@ == start + goal.take(k as int),
    {
        ms.push(Mark::SearchMatch(found[k].0, found[k].1));
        proof { assert(goal.take(k + 1) =~= goal.take(k as int).push(goal[k as int])); }
    }
    proof { assert(goal.take(found@.len() as int) =~= goal); }
}

pub open spec fn line_spans(lines: Seq<Line>) -> Seq<Seq<SpanView>> {
    lines.map_values(|l: Line| l@.spans)
}

/// The marks of rendered lines for the cursor, each line its own section, and the URLs of
/// their links (see [`lines_marks`]): link parts are grouped by URL, and search matches of
/// `needle` are found by display column.
pub fn marks_of_lines(lines: &Vec<Line>, needle: Option<&str>) -> (r: (Vec<SectionMarks>, Vec<String>))
    ensures
        (marks_view(r.0@), urls_view(r.1@)) == lines_marks(line_spans(lines@), needle_view(needle), lines@.len() as int),
{
    let ghost ls = line_spans(lines@);
    let mut sections: Vec<SectionMarks> = Vec::new();
    let mut urls: Vec<String> = Vec::new();
    for i in 0..lines.len()
        invariant
            ls == line_spans(lines@),
            lines_marks(ls, needle_view(needle), i as int) == (marks_view(sections@), urls_view(urls@)),
    {
        proof { assert(ls[i as int] == lines@[i as int]@.spans); }
        let ghost u_before = urls_view(urls@);
        let mut ms = link_marks(&lines[i].spans, &mut urls);
        let text = line_string(&lines[i]);
        let found = search_text(text.as_str(), needle);
        push_found(&mut ms, &found);
        let ghost s_before = sections@;
        let sm = SectionMarks { id: i, height: 1, marks: Some(ms) };
        sections.push(sm);
        proof {
            assert(marks_view(sections@) =~= marks_view(s_before).push(sm@));
        }
    }
    (sections, urls)
}

/// A span of columns to highlight on a line, and whether the cursor is on it.
#[derive(Debug, Clone, Copy, PartialEq, Eq, Structural)]
pub struct Highlight {
    pub start: usize,
    pub end: usize,
    pub current: bool,
}

/// Whether the cursor pointer `p` is on mark `i` of a line whose marks start at index
/// `flat_index` of section `section`.
pub open spec fn points_at(p: CursorPointer, section: usize, flat_index: usize, i: int) -> bool {
    p.id == section && p.index == flat_index + i
}

/// The highlights of the first `n` marks of a line: on links, every part of the selected
/// link's URL, the one under the cursor marked; in search, every match, the one under the
/// cursor marked; nothing otherwise.
pub open spec fn highlights_of(marks: Seq<Mark>, section: usize, flat_index: usize, cursor: Cursor, selected: Option<usize>, n: int) -> Seq<Highlight>
    decreases n,
{
    if n <= 0 {
        Seq::empty()
    } else {
        let prev = highlights_of(marks, section, flat_index, cursor, selected, n - 1);
        let i = n - 1;
        match cursor {
            Cursor::Links(p) => match (selected, marks[i]) {
                (Some(u), Mark::Link(id, s, e)) => if id == u {
                    prev.push(Highlight { start: s, end: e, current: points_at(p, section, flat_index, i) })
                } else {
                    prev
                },
                _ => prev,
            },
            Cursor::Search(_, ptr) => match marks[i] {
                Mark::SearchMatch(s, e) => prev.push(Highlight {
                    start: s,
                    end: e,
                    current: match ptr { Some(p) => points_at(p, section, flat_index, i), None => false },
                }),
                _ => prev,
            },
            Cursor::Inactive => prev,
        }
    }
}

/// The highlights of a line (see [`highlights_of`]): `marks` are the line's marks, which
/// start at index `flat_index` of section `section`, and `selected` is the URL identity of
/// the link under the cursor, if any.
pub fn line_highlights(marks: &Vec<Mark>, section: usize, flat_index: usize, cursor: &Cursor, selected: Option<usize>) -> (r: Vec<Highlight>)
    ensures
        r@ == highlights_of(marks@, section, flat_index, *cursor, selected, marks@.len() as int),
{
    let mut out: Vec<Highlight> = Vec::new();
    for i in 0..marks.len()
        invariant
            out@ == highlights_of(marks@, section, flat_index, *cursor, selected, i as int),
    {
        match cursor {
            Cursor::Links(p) => match (selected, marks[i]) {
                (Some(u), Mark::Link(id, s, e)) => {
                    if id == u {
                        let current = p.id == section && flat_index.checked_add(i) == Some(p.index);
                        out.push(Highlight { start: s, end: e, current });
                    }
                },
                _ => {},
            },
            Cursor::Search(_, ptr) => match marks[i] {
                Mark::SearchMatch(s, e) => {
                    let current = match ptr {
                        Some(p) => p.id == section && flat_index.checked_add(i) == Some(p.index),
                        None => false,
                    };
                    out.push(Highlight { start: s, end: e, current });
                },
                _ => {},
            },
            Cursor::Inactive => {},
        }
    }
    out
}

} // verus!

verus! {

/// The columns of the search matches among the first `n` marks, in order.
pub open spec fn search_match_cols(marks: Seq<Mark>, n: int) -> Seq<(usize, usize)>
    decreases n,
{
    if n <= 0 {
        Seq::empty()
    } else {
        match marks[n - 1] {
            Mark::SearchMatch(s, e) => search_match_cols(marks, n - 1).push((s, e)),
            _ => search_match_cols(marks, n - 1),
        }
    }
}

/// The columns of the parts of the link with URL identity `u` among the first `n` marks.
pub open spec fn link_part_cols(marks: Seq<Mark>, u: usize, n: int) -> Seq<(usize, usize)>
    decreases n,
{
    if n <= 0 {
        Seq::empty()
    } else {
        match marks[n - 1] {
            Mark::Link(id, s, e) => if id == u { link_part_cols(marks, u, n - 1).push((s, e)) } else { link_part_cols(marks, u, n - 1) },
            _ => link_part_cols(marks, u, n - 1),
        }
    }
}

/// The columns of highlights.
pub open spec fn highlight_cols(h: Seq<Highlight>) -> Seq<(usize, usize)> {
    h.map_values(|x: Highlight| (x.start, x.end))
}

/// How many highlights are the one under the cursor.
pub open spec fn current_count(h: Seq<Highlight>) -> nat
    decreases h.len(),
{
    if h.len() == 0 {
        0
    } else {
        current_count(h.drop_last()) + if h.last().current { 1nat } else { 0nat }
    }
}

/// Whether the pointer `p` designates, on a line whose marks start at index `flat_index` of
/// section `section`, one of its first `n` marks that is a search match (or, with
/// `link` set, a part of the link `u`).
pub open spec fn designates(p: CursorPointer, marks: Seq<Mark>, section: usize, flat_index: usize, n: int, link: Option<usize>) -> bool {
    &&& p.id == section
    &&& flat_index <= p.index < flat_index + n
    &&& match link {
        None => marks[p.index - flat_index] is SearchMatch,
        Some(u) => marks[p.index - flat_index] matches Mark::Link(id, _, _) && id == u,
    }
}

proof fn lemma_highlights(marks: Seq<Mark>, section: usize, flat_index: usize, cursor: Cursor, selected: Option<usize>, n: int)
    requires
        0 <= n <= marks.len(),
    ensures
        ({
            let h = highlights_of(marks, section, flat_index, cursor, selected, n);
            match cursor {
                Cursor::Search(_, ptr) => {
                    &&& highlight_cols(h) == search_match_cols(marks, n)
                    &&& current_count(h) == match ptr {
                        Some(p) => if designates(p, marks, section, flat_index, n, None) { 1nat } else { 0nat },
                        None => 0nat,
                    }
                },
                Cursor::Links(p) => match selected {
                    Some(u) => {
                        &&& highlight_cols(h) == link_part_cols(marks, u, n)
                        &&& current_count(h) == if designates(p, marks, section, flat_index, n, Some(u)) { 1nat } else { 0nat }
                    },
                    None => h.len() == 0,
                },
                Cursor::Inactive => h.len() == 0,
            }
        }),
    decreases n,
{
    if n > 0 {
        lemma_highlights(marks, section, flat_index, cursor, selected, n - 1);
        let prev = highlights_of(marks, section, flat_index, cursor, selected, n - 1);
        let h = highlights_of(marks, section, flat_index, cursor, selected, n);
        if h.len() > prev.len() {
            assert(h.drop_last() =~= prev);
            assert(highlight_cols(h) =~= highlight_cols(prev).push((h.last().start, h.last().end)));
        }
    }
}

/// What is highlighted on a line: in a search, one highlight per search match of the line,
/// in order and at its columns, the one that the cursor designates (if it is on this line)
/// marked as current and no other; on links, one highlight per part of the selected link,
/// likewise; with no link selected or no cursor, nothing.
pub proof fn highlights_follow_the_marks(marks: Seq<Mark>, section: usize, flat_index: usize, cursor: Cursor, selected: Option<usize>)
    ensures
        ({
            let h = highlights_of(marks, section, flat_index, cursor, selected, marks.len() as int);
            let n = marks.len() as int;
            match cursor {
                Cursor::Search(_, ptr) => {
                    &&& highlight_cols(h) == search_match_cols(marks, n)
                    &&& current_count(h) == match ptr {
                        Some(p) => if designates(p, marks, section, flat_index, n, None) { 1nat } else { 0nat },
                        None => 0nat,
                    }
                },
                Cursor::Links(p) => match selected {
                    Some(u) => {
                        &&& highlight_cols(h) == link_part_cols(marks, u, n)
                        &&& current_count(h) == if designates(p, marks, section, flat_index, n, Some(u)) { 1nat } else { 0nat }
                    },
                    None => h.len() == 0,
                },
                Cursor::Inactive => h.len() == 0,
            }
        }),
{
    lemma_highlights(marks, section, flat_index, cursor, selected, marks.len() as int);
}

} // verus!

verus! {

/// The URLs of the link parts among the first `n` spans, in order.
pub open spec fn link_sources(spans: Seq<SpanView>, n: int) -> Seq<Seq<char>>
    decreases n,
{
    if n <= 0 {
        Seq::empty()
    } else if is_link_part(spans[n - 1]) {
        link_sources(spans, n - 1).push(spans[n - 1].source->Some_0)
    } else {
        link_sources(spans, n - 1)
    }
}

/// No URL is listed twice.
pub open spec fn distinct_urls(us: Seq<Seq<char>>) -> bool {
    forall|i: int, j: int| 0 <= i < j < us.len() ==> us[i] != us[j]
}

proof fn lemma_url_id(us: Seq<Seq<char>>, url: Seq<char>, k: int)
    requires
        0 <= k <= us.len(),
    ensures
        k <= url_id(us, url, k) <= us.len(),
        url_id(us, url, k) < us.len() ==> us[url_id(us, url, k)] == url,
        url_id(us, url, k) == us.len() ==> forall|i: int| k <= i < us.len() ==> us[i] != url,
    decreases us.len() - k,
{
    if k < us.len() && us[k] != url {
        lemma_url_id(us, url, k + 1);
    }
}

proof fn lemma_link_fold(spans: Seq<SpanView>, urls: Seq<Seq<char>>, n: int)
    requires
        0 <= n <= spans.len(),
        distinct_urls(urls),
        urls.len() + spans.len() <= usize::MAX,
    ensures
        ({
            let (ms, us, _) = link_fold(spans, urls, n);
            let src = link_sources(spans, n);
            &&& ms.len() == src.len()
            &&& urls.len() <= us.len()
            &&& us.take(urls.len() as int) == urls
            &&& distinct_urls(us)
            &&& us.len() <= urls.len() + n
            &&& forall|k: int| 0 <= k < ms.len() ==> (#[trigger] ms[k]) is Link
                && (ms[k]->Link_0 as int) < us.len() && us[ms[k]->Link_0 as int] == src[k]
        }),
    decreases n,
{
    if n == 0 {
        assert(urls.take(urls.len() as int) =~= urls);
    } else {
        lemma_link_fold(spans, urls, n - 1);
        let (ms, us, col) = link_fold(spans, urls, n - 1);
        let v = spans[n - 1];
        if is_link_part(v) {
            let s = v.source->Some_0;
            lemma_url_id(us, s, 0);
            let id = url_id(us, s, 0);
            let us2 = with_url(us, s);
            let ms2 = ms.push(Mark::Link(id as usize, col as usize, col.saturating_add(display_width(v.content)) as usize));
            assert(us.len() <= urls.len() + n - 1);
            if id == us.len() {
                assert(us2.take(urls.len() as int) =~= us.take(urls.len() as int));
                assert forall|i: int, j: int| 0 <= i < j < us2.len() implies us2[i] != us2[j] by {
                    if j == us.len() {
                        assert(us2[j] == s);
                    }
                }
            }
            let src2 = link_sources(spans, n);
            assert(src2 == link_sources(spans, n - 1).push(s));
            assert forall|k: int| 0 <= k < ms2.len() implies (#[trigger] ms2[k]) is Link
                && (ms2[k]->Link_0 as int) < us2.len() && us2[ms2[k]->Link_0 as int] == src2[k] by {
                if k < ms.len() {
                    assert(ms2[k] == ms[k]);
                } else {
                    assert(ms2[k] == Mark::Link(id as usize, col as usize, col.saturating_add(display_width(v.content)) as usize));
                    assert(src2[k] == s);
                    if id == us.len() {
                        assert(us2 == us.push(s));
                        assert(us2[id] == s);
                    }
                }
            }
        }
    }
}

/// Link parts are grouped by URL: the URLs are listed once each, every link part of a line
/// gets the identity under which its own URL is listed, so that two parts have the same
/// identity exactly when they link to the same URL.
pub proof fn link_parts_are_grouped_by_url(spans: Seq<SpanView>)
    requires
        spans.len() <= usize::MAX,
    ensures
        ({
            let (ms, us, _) = link_fold(spans, Seq::empty(), spans.len() as int);
            let src = link_sources(spans, spans.len() as int);
            &&& distinct_urls(us)
            &&& ms.len() == src.len()
            &&& forall|k: int| 0 <= k < ms.len() ==> (#[trigger] ms[k]) is Link
                && (ms[k]->Link_0 as int) < us.len() && us[ms[k]->Link_0 as int] == src[k]
            &&& forall|k: int, l: int| 0 <= k < ms.len() && 0 <= l < ms.len()
                ==> ((#[trigger] ms[k])->Link_0 == (#[trigger] ms[l])->Link_0) == (src[k] == src[l])
        }),
{
    lemma_link_fold(spans, Seq::empty(), spans.len() as int);
    let (ms, us, _) = link_fold(spans, Seq::empty(), spans.len() as int);
    let src = link_sources(spans, spans.len() as int);
    assert forall|k: int, l: int| 0 <= k < ms.len() && 0 <= l < ms.len()
        implies ((#[trigger] ms[k])->Link_0 == (#[trigger] ms[l])->Link_0) == (src[k] == src[l]) by {
        assert(ms[k] is Link && ms[l] is Link);
        let a = ms[k]->Link_0 as int;
        let b = ms[l]->Link_0 as int;
        if a != b && src[k] == src[l] {
            if a < b {
                assert(us[a] != us[b]);
            } else {
                assert(us[b] != us[a]);
            }
        }
    }
}

} // verus!
