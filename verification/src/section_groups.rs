//! Lines grouped into the viewer's sections: a header is a section of its own (or several,
//! when it is drawn big and wrapped), an image is a section of its own with the blank line
//! after it, and the other lines run together into text sections.
use vstd::prelude::*;

use crate::big_text::{ratio, BigText};
use crate::lines::{lines_view, Line, LineKind, LineKindView, LineView};
use crate::markdown::spans_text;
use crate::model::{HeaderConfig, MarkdownImage, SectionEvent};
use crate::span::spans_view;
use crate::wrap::{strings_view, textwrap_lines, wrap_text};

verus! {

/// What a section shows: a header to draw, or lines.
#[derive(Debug)]
pub enum GroupContent {
    Header(String, u8),
    Lines(Vec<Line>),
}

/// A section of the viewer before it is drawn.
#[derive(Debug)]
pub struct GroupedSection {
    pub id: usize,
    pub height: u16,
    pub content: GroupContent,
}

/// The mathematical value of a [`GroupContent`].
pub enum GroupContentView {
    Header(Seq<char>, u8),
    Lines(Seq<LineView>),
}

/// The mathematical value of a [`GroupedSection`].
pub struct GroupedSectionView {
    pub id: usize,
    pub height: u16,
    pub content: GroupContentView,
}

/// The mathematical value of a [`SectionEvent`].
pub enum SectionEventView {
    Image(usize, Seq<char>, Seq<char>),
    Header(usize, Seq<char>, u8),
}

impl View for GroupedSection {
    type V = GroupedSectionView;

    open spec fn view(&self) -> GroupedSectionView {
        GroupedSectionView {
            id: self.id,
            height: self.height,
            content: match &self.content {
                GroupContent::Header(t, tier) => GroupContentView::Header(t@, *tier),
                GroupContent::Lines(ls) => GroupContentView::Lines(lines_view(ls@)),
            },
        }
    }
}

impl View for SectionEvent {
    type V = SectionEventView;

    open spec fn view(&self) -> SectionEventView {
        match self {
            SectionEvent::Image(id, img) => SectionEventView::Image(*id, img.destination@, img.description@),
            SectionEvent::Header(id, t, tier) => SectionEventView::Header(*id, t@, *tier),
        }
    }
}

pub open spec fn events_view(s: Seq<SectionEvent>) -> Seq<SectionEventView> {
    s.map_values(|e: SectionEvent| e@)
}

pub open spec fn groups_view(s: Seq<(GroupedSection, Vec<SectionEvent>)>) -> Seq<(GroupedSectionView, Seq<SectionEventView>)> {
    s.map_values(|p: (GroupedSection, Vec<SectionEvent>)| (p.0@, events_view(p.1@)))
}

/// A line that ends a run of text lines: a header or an image.
pub open spec fn breaks_text(l: LineView) -> bool {
    l.kind is Header || l.kind is Image
}

/// The end of the run of text lines that starts at `i`: the first header or image after it.
pub open spec fn text_run_end(ls: Seq<LineView>, j: int) -> int
    decreases ls.len() - j,
{
    if j < 0 || j >= ls.len() || breaks_text(ls[j]) { j } else { text_run_end(ls, j + 1) }
}

/// The lines without the blank lines at their end.
pub open spec fn trim_blank_end(ls: Seq<LineView>) -> Seq<LineView>
    decreases ls.len(),
{
    if ls.len() > 0 && ls.last().kind is Blank { trim_blank_end(ls.drop_last()) } else { ls }
}

/// The blank line.
pub open spec fn blank_view() -> LineView {
    LineView { spans: Seq::empty(), kind: LineKindView::Blank }
}

/// The width a header drawn big is wrapped to: half the width, scaled back by the tier's
/// ratio.
pub open spec fn header_wrap_width(width: u16, tier: u8) -> usize {
    let (n, d) = ratio(tier);
    ((width as int / 2) * d as int / n as int) as usize
}

/// One section per part of a wrapped header, with ids from `id` on.
pub open spec fn header_parts(parts: Seq<Seq<char>>, tier: u8, id: int) -> Seq<(GroupedSectionView, Seq<SectionEventView>)>
    decreases parts.len(),
{
    if parts.len() == 0 {
        Seq::empty()
    } else {
        seq![(GroupedSectionView { id: id as usize, height: 2, content: GroupContentView::Header(parts[0], tier) }, Seq::<SectionEventView>::empty())]
            + header_parts(parts.drop_first(), tier, id + 1)
    }
}

/// The sections of the lines from `i` on, with section ids from `id` on.
///
/// Blank lines before a section are skipped. A header line gives one section with its text
/// (and an event to draw it as an image), or, drawn with the text sizing protocol, one
/// section per line of its text wrapped to [`header_wrap_width`]. An image line gives a
/// section with the blank line that follows it, if one does, and an event to load the image.
/// Other lines run together up to the next header or image; blank lines at the end of the
/// run are dropped, but one is kept before a header.
pub open spec fn groups_from(ls: Seq<LineView>, i: int, id: int, width: u16, cfg: HeaderConfig) -> Seq<(GroupedSectionView, Seq<SectionEventView>)>
    decreases ls.len() - i,
{
    if i < 0 || i >= ls.len() {
        Seq::empty()
    } else {
        match ls[i].kind {
            LineKindView::Header(tier) => {
                let text = spans_text(ls[i].spans);
                match cfg {
                    HeaderConfig::TextSizeProtocol => {
                        let parts = textwrap_lines(text, header_wrap_width(width, tier));
                        header_parts(parts, tier, id) + groups_from(ls, i + 1, id + parts.len(), width, cfg)
                    },
                    _ => seq![(
                        GroupedSectionView { id: id as usize, height: 2, content: GroupContentView::Header(text, tier) },
                        seq![SectionEventView::Header(id as usize, text, tier)],
                    )] + groups_from(ls, i + 1, id + 1, width, cfg),
                }
            },
            LineKindView::Image(url, description) => {
                let with_blank = i + 1 < ls.len() && ls[i + 1].kind is Blank;
                let lines = if with_blank { seq![ls[i], ls[i + 1]] } else { seq![ls[i]] };
                seq![(
                    GroupedSectionView { id: id as usize, height: lines.len() as u16, content: GroupContentView::Lines(lines) },
                    seq![SectionEventView::Image(id as usize, url, description)],
                )] + groups_from(ls, if with_blank { i + 2 } else { i + 1 }, id + 1, width, cfg)
            },
            LineKindView::Blank => groups_from(ls, i + 1, id, width, cfg),
            _ => {
                let end = text_run_end(ls, i + 1);
                proof { lemma_text_run_end(ls, i + 1); }
                let kept = trim_blank_end(ls.subrange(i, end));
                let lines = if end < ls.len() && ls[end].kind is Header { kept.push(blank_view()) } else { kept };
                seq![(
                    GroupedSectionView { id: id as usize, height: lines.len() as u16, content: GroupContentView::Lines(lines) },
                    Seq::<SectionEventView>::empty(),
                )] + groups_from(ls, end, id + 1, width, cfg)
            },
        }
    }
}

pub proof fn lemma_text_run_end(ls: Seq<LineView>, j: int)
    requires
        0 <= j,
    ensures
        j <= text_run_end(ls, j),
        j <= ls.len() ==> text_run_end(ls, j) <= ls.len(),
    decreases ls.len() - j,
{
    if j < ls.len() && !breaks_text(ls[j]) {
        lemma_text_run_end(ls, j + 1);
    }
}

proof fn lemma_trim_blank_end(ls: Seq<LineView>, i: int, k: int)
    requires
        0 <= i <= k <= ls.len(),
        forall|m: int| k <= m < ls.len() ==> (#[trigger] ls[m]).kind is Blank,
        k == i || !(ls[k - 1].kind is Blank),
    ensures
        trim_blank_end(ls.subrange(i, ls.len() as int)) == ls.subrange(i, k),
    decreases ls.len() - k,
{
    let s = ls.subrange(i, ls.len() as int);
    if k < ls.len() {
        assert(s.last() == ls[ls.len() - 1]);
        assert(s.drop_last() =~= ls.drop_last().subrange(i, ls.len() - 1));
        lemma_trim_blank_end(ls.drop_last(), i, k);
        assert(ls.drop_last().subrange(i, k) =~= ls.subrange(i, k));
    } else {
        assert(s =~= ls.subrange(i, k));
        if k > i {
            assert(s.last() == ls[k - 1]);
        }
    }
}

/// The text of a line's spans.
fn line_text(l: &Line) -> (s: String)
    ensures
        s@ == spans_text(spans_view(l.spans@)),
{
    let ghost sv = spans_view(l.spans@);
    let mut s = String::new();
    for k in 0..l.spans.len()
        invariant
            sv == spans_view(l.spans@),
            s@ == spans_text(sv.take(k as int)),
    {
        proof {
            assert(sv.take(k + 1).drop_last() =~= sv.take(k as int));
            assert(sv.take(k + 1).last() == l.spans@[k as int]@);
        }
        s.append(l.spans[k].content.as_str());
    }
    assert(sv.take(sv.len() as int) =~= sv);
    s
}

fn is_blank_kind(k: &LineKind) -> (b: bool)
    ensures
        b == (k@ is Blank),
{
    match k {
        LineKind::Blank => true,
        _ => false,
    }
}

fn breaks_text_exec(l: &Line) -> (b: bool)
    ensures
        b == breaks_text(l@),
{
    match l.kind {
        LineKind::Header(_) | LineKind::Image { .. } => true,
        _ => false,
    }
}

/// Group lines into the viewer's sections, with ids from 0 on (see [`groups_from`]).
pub fn group_sections(lines: &Vec<Line>, width: u16, cfg: HeaderConfig) -> (r: Vec<(GroupedSection, Vec<SectionEvent>)>)
    requires
        cfg == HeaderConfig::Line ==> forall|k: int| 0 <= k < lines@.len() ==> !((#[trigger] lines@[k])@.kind is Header),
    ensures
        groups_view(r@) == groups_from(lines_view(lines@), 0, 0, width, cfg),
{
    let ghost ls = lines_view(lines@);
    let mut out: Vec<(GroupedSection, Vec<SectionEvent>)> = Vec::new();
    let n = lines.len();
    let mut i: usize = 0;
    while i < n
        invariant
            n == ls.len(),
            ls == lines_view(lines@),
            i <= n,
            cfg == HeaderConfig::Line ==> forall|k: int| 0 <= k < lines@.len() ==> !((#[trigger] lines@[k])@.kind is Header),
            groups_from(ls, 0, 0, width, cfg) == groups_view(out@) + groups_from(ls, i as int, out@.len() as int, width, cfg),
        decreases n - i,
    {
        let ghost before = out@;
        let ghost id = out@.len() as int;
        let line = &lines[i];
        proof { assert(ls[i as int] == line@); }
        match &line.kind {
            LineKind::Header(tier) => {
                let tier = *tier;
                let text = line_text(line);
                match cfg {
                    HeaderConfig::TextSizeProtocol => {
                        let (num, den) = BigText::size_ratio(tier);
                        proof {
                            assert((width as int / 2) * den as int <= 0xffff * 0xff) by (nonlinear_arith)
                                requires
                                    0 <= width <= 0xffff,
                                    0 <= den <= 0xff;
                            assert(num > 0);
                        }
                        let w = (width as usize / 2) * (den as usize) / (num as usize);
                        let parts = wrap_text(text.as_str(), w);
                        let ghost pv = strings_view(parts@);
                        assert(w == header_wrap_width(width, tier));
                        assert(pv.skip(0) =~= pv);
                        for k in 0..parts.len()
                            invariant
                                pv == strings_view(parts@),
                                out@.len() == id + k,
                                groups_view(out@) + header_parts(pv.skip(k as int), tier, id + k) == groups_view(before) + header_parts(pv, tier, id),
                        {
                            let g = GroupedSection { id: out.len(), height: 2, content: GroupContent::Header(parts[k].clone(), tier) };
                            let ghost o = out@;
                            out.push((g, Vec::new()));
                            proof {
                                assert(pv.skip(k as int).drop_first() =~= pv.skip(k + 1));
                                assert(pv.skip(k as int)[0] == pv[k as int]);
                                assert(groups_view(out@) =~= groups_view(o).push((g@, events_view(out@[k + id].1@))));
                                assert(events_view(out@[out@.len() - 1].1@) =~= Seq::<SectionEventView>::empty());
                            }
                        }
                        proof {
                            assert(pv.skip(pv.len() as int) =~= Seq::<Seq<char>>::empty());
                        }
                    },
                    _ => {
                        let ghost tv = text@;
                        let id_exec = out.len();
                        let g = GroupedSection { id: id_exec, height: 2, content: GroupContent::Header(text.clone(), tier) };
                        let mut events = Vec::new();
                        events.push(SectionEvent::Header(id_exec, text, tier));
                        out.push((g, events));
                        proof {
                            assert(groups_view(out@) =~= groups_view(before) + seq![(g@, events_view(out@[id].1@))]);
                            assert(events_view(out@[id].1@) =~= seq![SectionEventView::Header(id as usize, tv, tier)]);
                        }
                    },
                }
                i = i + 1;
            },
            LineKind::Image { url, description } => {
                let with_blank = i + 1 < n && is_blank_kind(&lines[i + 1].kind);
                let mut group: Vec<Line> = Vec::new();
                group.push(line.copy());
                if with_blank {
                    group.push(lines[i + 1].copy());
                }
                let height = group.len() as u16;
                let id_exec = out.len();
                let mut events = Vec::new();
                events.push(SectionEvent::Image(id_exec, MarkdownImage { destination: url.clone(), description: description.clone() }));
                let g = GroupedSection { id: id_exec, height, content: GroupContent::Lines(group) };
                let ghost ev = events@;
                out.push((g, events));
                proof {
                    if with_blank {
                        assert(ls[i + 1] == lines@[i + 1]@);
                        assert(lines_view(group@) =~= seq![ls[i as int], ls[i + 1]]);
                    } else {
                        if i + 1 < n {
                            assert(ls[i + 1] == lines@[i + 1]@);
                        }
                        assert(lines_view(group@) =~= seq![ls[i as int]]);
                    }
                    assert(events_view(ev) =~= seq![SectionEventView::Image(id as usize, url@, description@)]);
                    assert(groups_view(out@) =~= groups_view(before) + seq![(g@, events_view(ev))]);
                }
                i = if with_blank { i + 2 } else { i + 1 };
            },
            LineKind::Blank => {
                i = i + 1;
            },
            _ => {
                let mut end = i + 1;
                while end < n && !breaks_text_exec(&lines[end])
                    invariant
                        n == ls.len(),
                        ls == lines_view(lines@),
                        i < end <= n,
                        text_run_end(ls, i + 1) == text_run_end(ls, end as int),
                    decreases n - end,
                {
                    proof { assert(ls[end as int] == lines@[end as int]@); }
                    end = end + 1;
                }
                proof { if end < n { assert(ls[end as int] == lines@[end as int]@); } }
                let mut k = end;
                while k > i + 1 && is_blank_kind(&lines[k - 1].kind)
                    invariant
                        n == ls.len(),
                        ls == lines_view(lines@),
                        i < k <= end <= n,
                        forall|m: int| k <= m < end ==> (#[trigger] ls[m]).kind is Blank,
                    decreases k,
                {
                    proof { assert(ls[k - 1] == lines@[k - 1]@); }
                    k = k - 1;
                }
                let mut group: Vec<Line> = Vec::new();
                for m in i..k
                    invariant
                        ls == lines_view(lines@),
                        k <= lines@.len(),
                        i <= m <= k,
                        lines_view(group@) == ls.subrange(i as int, m as int),
                {
                    let ghost g0 = group@;
                    group.push(lines[m].copy());
                    proof {
                        assert(lines_view(group@) =~= lines_view(g0).push(lines@[m as int]@));
                        assert(ls.subrange(i as int, m + 1) =~= ls.subrange(i as int, m as int).push(ls[m as int]));
                    }
                }
                let header_follows = end < n && match lines[end].kind {
                    LineKind::Header(_) => true,
                    _ => false,
                };
                if header_follows {
                    let ghost g0 = group@;
                    let blank = Line { spans: Vec::new(), kind: LineKind::Blank };
                    proof { assert(spans_view(blank.spans@) =~= Seq::<crate::span::SpanView>::empty()); }
                    group.push(blank);
                    proof { assert(lines_view(group@) =~= lines_view(g0).push(blank_view())); }
                }
                let height = group.len() as u16;
                let id_exec = out.len();
                let g = GroupedSection { id: id_exec, height, content: GroupContent::Lines(group) };
                let ev: Vec<SectionEvent> = Vec::new();
                out.push((g, ev));
                proof {
                    let ls2 = ls.subrange(0, end as int);
                    assert forall|m: int| k <= m < ls2.len() implies (#[trigger] ls2[m]).kind is Blank by {
                        assert(ls2[m] == ls[m]);
                    }
                    if k > i + 1 {
                        assert(!(ls2[k - 1].kind is Blank)) by {
                            assert(ls[k - 1] == lines@[k - 1]@);
                        }
                    } else {
                        if !(ls2[k - 1].kind is Blank) {
                        } else {
                            assert(ls[i as int] == lines@[i as int]@);
                        }
                    }
                    lemma_trim_blank_end(ls2, i as int, k as int);
                    assert(ls2.subrange(i as int, ls2.len() as int) =~= ls.subrange(i as int, end as int));
                    assert(ls2.subrange(i as int, k as int) =~= ls.subrange(i as int, k as int));
                    assert(events_view(ev@) =~= Seq::<SectionEventView>::empty());
                    assert(groups_view(out@) =~= groups_view(before) + seq![(g@, events_view(ev@))]);
                }
                i = end;
            },
        }
    }
    out
}

/// The id of the last section, if there is one: ids count the sections from 0.
pub fn last_section_id(sections: &Vec<(GroupedSection, Vec<SectionEvent>)>) -> (r: Option<usize>)
    ensures
        r == if sections@.len() == 0 { None } else { Some((sections@.len() - 1) as usize) },
{
    if sections.len() == 0 { None } else { Some(sections.len() - 1) }
}

proof fn lemma_header_parts_ids(parts: Seq<Seq<char>>, tier: u8, id: int)
    ensures
        header_parts(parts, tier, id).len() == parts.len(),
        forall|k: int| 0 <= k < parts.len() ==> (#[trigger] header_parts(parts, tier, id)[k]).0.id == (id + k) as usize,
    decreases parts.len(),
{
    if parts.len() > 0 {
        lemma_header_parts_ids(parts.drop_first(), tier, id + 1);
        let h = header_parts(parts, tier, id);
        let rest = header_parts(parts.drop_first(), tier, id + 1);
        assert forall|k: int| 0 <= k < parts.len() implies (#[trigger] h[k]).0.id == (id + k) as usize by {
            if k > 0 {
                assert(h[k] == rest[k - 1]);
            }
        }
    }
}

proof fn lemma_group_ids(ls: Seq<LineView>, i: int, id: int, width: u16, cfg: HeaderConfig)
    requires
        0 <= i,
    ensures
        forall|k: int| 0 <= k < groups_from(ls, i, id, width, cfg).len()
            ==> (#[trigger] groups_from(ls, i, id, width, cfg)[k]).0.id == (id + k) as usize,
    decreases ls.len() - i,
{
    if i < ls.len() {
        let g = groups_from(ls, i, id, width, cfg);
        match ls[i].kind {
            LineKindView::Header(tier) => {
                let text = spans_text(ls[i].spans);
                match cfg {
                    HeaderConfig::TextSizeProtocol => {
                        let parts = textwrap_lines(text, header_wrap_width(width, tier));
                        lemma_header_parts_ids(parts, tier, id);
                        lemma_group_ids(ls, i + 1, id + parts.len(), width, cfg);
                        let h = header_parts(parts, tier, id);
                        let rest = groups_from(ls, i + 1, id + parts.len(), width, cfg);
                        assert forall|k: int| 0 <= k < g.len() implies (#[trigger] g[k]).0.id == (id + k) as usize by {
                            if k < h.len() {
                                assert(g[k] == h[k]);
                            } else {
                                assert(g[k] == rest[k - h.len()]);
                            }
                        }
                    },
                    _ => {
                        lemma_group_ids(ls, i + 1, id + 1, width, cfg);
                        let rest = groups_from(ls, i + 1, id + 1, width, cfg);
                        assert forall|k: int| 0 <= k < g.len() implies (#[trigger] g[k]).0.id == (id + k) as usize by {
                            if k > 0 {
                                assert(g[k] == rest[k - 1]);
                            }
                        }
                    },
                }
            },
            LineKindView::Image(_, _) => {
                let with_blank = i + 1 < ls.len() && ls[i + 1].kind is Blank;
                let next = if with_blank { i + 2 } else { i + 1 };
                lemma_group_ids(ls, next, id + 1, width, cfg);
                let rest = groups_from(ls, next, id + 1, width, cfg);
                assert forall|k: int| 0 <= k < g.len() implies (#[trigger] g[k]).0.id == (id + k) as usize by {
                    if k > 0 {
                        assert(g[k] == rest[k - 1]);
                    }
                }
            },
            LineKindView::Blank => {
                lemma_group_ids(ls, i + 1, id, width, cfg);
            },
            _ => {
                lemma_text_run_end(ls, i + 1);
                let end = text_run_end(ls, i + 1);
                lemma_group_ids(ls, end, id + 1, width, cfg);
                let rest = groups_from(ls, end, id + 1, width, cfg);
                assert forall|k: int| 0 <= k < g.len() implies (#[trigger] g[k]).0.id == (id + k) as usize by {
                    if k > 0 {
                        assert(g[k] == rest[k - 1]);
                    }
                }
            },
        }
    }
}

/// Section ids are consecutive from 0: the section at position `k` has id `k`, so the last
/// id is the number of sections less one.
pub proof fn section_ids_count_up(ls: Seq<LineView>, width: u16, cfg: HeaderConfig)
    ensures
        forall|k: int| 0 <= k < groups_from(ls, 0, 0, width, cfg).len()
            ==> (#[trigger] groups_from(ls, 0, 0, width, cfg)[k]).0.id == k as usize,
{
    lemma_group_ids(ls, 0, 0, width, cfg);
}

} // verus!
