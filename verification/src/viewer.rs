//! The document as the viewer holds it: sections in order, each with an id and a height in
//! lines, whatever their content. Sections are added while the document is parsed, replaced
//! by id when they are parsed again or when an image or a header is drawn, and cut off after
//! the last one of a parse.
use vstd::prelude::*;

use crate::model::{Cursor, CursorPointer, CursorView, FindMode, FindTarget};

verus! {

/// A section of the document: one or more lines, an image or a header.
pub struct Section<C> {
    pub id: usize,
    pub height: u16,
    pub content: C,
}

/// The sections of the document, in order.
pub struct Document<C> {
    sections: Vec<Section<C>>,
}

impl<C> View for Document<C> {
    type V = Seq<Section<C>>;

    closed spec fn view(&self) -> Seq<Section<C>> {
        self.sections@
    }
}

/// The index of the first section from `i` on with id `id`, or the number of sections.
pub open spec fn first_with_id<C>(s: Seq<Section<C>>, id: usize, i: int) -> int
    decreases s.len() - i,
{
    if i < 0 || i >= s.len() {
        s.len() as int
    } else if s[i].id == id {
        i
    } else {
        first_with_id(s, id, i + 1)
    }
}

/// The end of the run of sections with id `id` that starts at `i`.
pub open spec fn run_end<C>(s: Seq<Section<C>>, id: usize, i: int) -> int
    decreases s.len() - i,
{
    if i < 0 || i >= s.len() || s[i].id != id {
        i
    } else {
        run_end(s, id, i + 1)
    }
}

/// The sections after an update with `u`, sections that all have one id: they replace the
/// first run of sections with that id; without one, they are appended if their id is above
/// that of the last section; otherwise nothing changes. An empty update changes nothing.
pub open spec fn updated<C>(s: Seq<Section<C>>, u: Seq<Section<C>>) -> Seq<Section<C>> {
    if u.len() == 0 {
        s
    } else {
        let id = u[0].id;
        let start = first_with_id(s, id, 0);
        if start < s.len() {
            s.take(start) + u + s.skip(run_end(s, id, start))
        } else if s.len() > 0 && s.last().id < id {
            s + u
        } else {
            s
        }
    }
}

/// The sections after the parse that ended with section `last`: those after the first
/// section with that id are dropped, unless the last section already has it; nothing changes
/// without a last id.
pub open spec fn trimmed<C>(s: Seq<Section<C>>, last: Option<usize>) -> Seq<Section<C>> {
    match last {
        None => s,
        Some(id) => if s.len() > 0 && s.last().id == id {
            s
        } else {
            let i = first_with_id(s, id, 0);
            if i < s.len() { s.take(i + 1) } else { s }
        },
    }
}

/// The sum of the heights of the sections `s[..n]`.
pub open spec fn heights<C>(s: Seq<Section<C>>, n: int) -> int
    decreases n,
{
    if n <= 0 || n > s.len() { 0 } else { heights(s, n - 1) + s[n - 1].height }
}

/// The line where the first section with id `id` starts: the heights of the sections before
/// it (of all sections when none has the id).
pub open spec fn section_y<C>(s: Seq<Section<C>>, id: usize) -> int {
    heights(s, first_with_id(s, id, 0))
}

proof fn lemma_first_with_id<C>(s: Seq<Section<C>>, id: usize, i: int)
    requires
        0 <= i <= s.len(),
    ensures
        i <= first_with_id(s, id, i) <= s.len(),
        first_with_id(s, id, i) < s.len() ==> s[first_with_id(s, id, i)].id == id,
        forall|k: int| i <= k < first_with_id(s, id, i) ==> s[k].id != id,
    decreases s.len() - i,
{
    if i < s.len() && s[i].id != id {
        lemma_first_with_id(s, id, i + 1);
    }
}

proof fn lemma_run_end<C>(s: Seq<Section<C>>, id: usize, i: int)
    requires
        0 <= i <= s.len(),
    ensures
        i <= run_end(s, id, i) <= s.len(),
        run_end(s, id, i) < s.len() ==> s[run_end(s, id, i)].id != id,
        forall|k: int| i <= k < run_end(s, id, i) ==> s[k].id == id,
    decreases s.len() - i,
{
    if i < s.len() && s[i].id == id {
        lemma_run_end(s, id, i + 1);
    }
}

proof fn lemma_heights_mono<C>(s: Seq<Section<C>>, a: int, b: int)
    requires
        0 <= a <= b <= s.len(),
    ensures
        heights(s, a) <= heights(s, b),
    decreases b - a,
{
    if a < b {
        lemma_heights_mono(s, a, b - 1);
    }
}

impl<C> Document<C> {
    pub fn new() -> (d: Document<C>)
        ensures
            d@ == Seq::<Section<C>>::empty(),
    {
        Document { sections: Vec::new() }
    }

    /// The sections, in order.
    pub fn sections(&self) -> (s: &Vec<Section<C>>)
        ensures
            s@ == self@,
    {
        &self.sections
    }

    /// Add a section at the end; no section has its id yet.
    pub fn push(&mut self, section: Section<C>)
        requires
            forall|k: int| 0 <= k < old(self)@.len() ==> (#[trigger] old(self)@[k]).id != section.id,
        ensures
            final(self)@ == old(self)@.push(section),
    {
        self.sections.push(section);
    }

    /// Replace the sections with the id of `updates` (see [`updated`]).
    pub fn update(&mut self, updates: Vec<Section<C>>)
        requires
            forall|k: int| 0 <= k < updates@.len() ==> (#[trigger] updates@[k]).id == updates@[0].id,
        ensures
            final(self)@ == updated(old(self)@, updates@),
    {
        if updates.len() == 0 {
            return;
        }
        let id = updates[0].id;
        let ghost s = self.sections@;
        let n = self.sections.len();
        let mut start: usize = 0;
        while start < n && self.sections[start].id != id
            invariant
                n == self.sections@.len(),
                self.sections@ == s,
                start <= n,
                first_with_id(s, id, 0) == first_with_id(s, id, start as int),
            decreases n - start,
        {
            start = start + 1;
        }
        proof { lemma_first_with_id(s, id, start as int); }
        if start < n {
            let mut end: usize = start;
            while end < n && self.sections[end].id == id
                invariant
                    n == self.sections@.len(),
                    self.sections@ == s,
                    start <= end <= n,
                    run_end(s, id, start as int) == run_end(s, id, end as int),
                decreases n - end,
            {
                end = end + 1;
            }
            let mut tail = self.sections.split_off(end);
            self.sections.truncate(start);
            let mut u = updates;
            self.sections.append(&mut u);
            self.sections.append(&mut tail);
            proof {
                assert(s.take(start as int) + updates@ + s.skip(end as int) =~= self.sections@);
            }
        } else if n > 0 && self.sections[n - 1].id < id {
            let mut u = updates;
            self.sections.append(&mut u);
        }
    }

    /// Drop the sections after the last one of a parse (see [`trimmed`]).
    pub fn trim(&mut self, last_section_id: Option<usize>)
        ensures
            final(self)@ == trimmed(old(self)@, last_section_id),
    {
        let id = match last_section_id {
            None => return,
            Some(id) => id,
        };
        let n = self.sections.len();
        if n > 0 && self.sections[n - 1].id == id {
            return;
        }
        let ghost s = self.sections@;
        let mut i: usize = 0;
        while i < n && self.sections[i].id != id
            invariant
                n == self.sections@.len(),
                self.sections@ == s,
                i <= n,
                first_with_id(s, id, 0) == first_with_id(s, id, i as int),
            decreases n - i,
        {
            i = i + 1;
        }
        proof { lemma_first_with_id(s, id, i as int); }
        if i < n {
            self.sections.truncate(i + 1);
        }
    }

    /// The line where the section with id `id` starts (see [`section_y`]).
    pub fn get_y(&self, id: usize) -> (y: i16)
        requires
            heights(self@, self@.len() as int) <= i16::MAX,
        ensures
            y == section_y(self@, id),
    {
        let ghost s = self.sections@;
        let n = self.sections.len();
        let mut y: i16 = 0;
        let mut i: usize = 0;
        while i < n && self.sections[i].id != id
            invariant
                n == s.len(),
                self.sections@ == s,
                i <= n,
                first_with_id(s, id, 0) == first_with_id(s, id, i as int),
                y == heights(s, i as int),
                heights(s, n as int) <= i16::MAX,
            decreases n - i,
        {
            proof {
                lemma_heights_mono(s, i + 1, n as int);
                lemma_heights_mono(s, 0, i as int);
                assert(heights(s, i + 1) == heights(s, i as int) + s[i as int].height);
            }
            y = y + self.sections[i].height as i16;
            i = i + 1;
        }
        proof { lemma_first_with_id(s, id, i as int); }
        y
    }

    /// The number of lines of the document.
    pub fn total_lines(&self) -> (t: u16)
        requires
            heights(self@, self@.len() as int) <= u16::MAX,
        ensures
            t == heights(self@, self@.len() as int),
    {
        let ghost s = self.sections@;
        let n = self.sections.len();
        let mut t: u16 = 0;
        for i in 0..n
            invariant
                n == s.len(),
                self.sections@ == s,
                t == heights(s, i as int),
                heights(s, n as int) <= u16::MAX,
        {
            proof {
                lemma_heights_mono(s, i + 1, n as int);
                lemma_heights_mono(s, 0, i as int);
                assert(heights(s, i + 1) == heights(s, i as int) + s[i as int].height);
            }
            t = t + self.sections[i].height;
        }
        t
    }
}


/// What a line holds besides its text, as far as the cursor goes: an image, a part of a link
/// (with the identity of the link's URL, shared by the parts of a link broken over lines, and
/// the display columns at which the part starts and ends), or a match of the search (with the
/// display columns at which it starts and ends).
#[derive(Debug, Clone, Copy, PartialEq, Eq, Structural)]
pub enum Mark {
    Image,
    Link(usize, usize, usize),
    SearchMatch(usize, usize),
}

/// The marks of a section, as the cursor sees it: the marks of its lines one after another,
/// or none when the section is not made of lines.
#[derive(Debug, Clone, PartialEq, Eq)]
pub struct SectionMarks {
    pub id: usize,
    pub height: u16,
    pub marks: Option<Vec<Mark>>,
}

/// The mathematical value of a [`SectionMarks`].
pub struct SectionMarksView {
    pub id: usize,
    pub height: u16,
    pub marks: Option<Seq<Mark>>,
}

impl View for SectionMarks {
    type V = SectionMarksView;

    open spec fn view(&self) -> SectionMarksView {
        SectionMarksView {
            id: self.id,
            height: self.height,
            marks: match self.marks {
                Some(v) => Some(v@),
                None => None,
            },
        }
    }
}

pub open spec fn marks_view(s: Seq<SectionMarks>) -> Seq<SectionMarksView> {
    s.map_values(|m: SectionMarks| m@)
}

/// Whether the cursor looking for `t` stops at mark `m`.
pub open spec fn is_target(t: FindTarget, m: Mark) -> bool {
    match t {
        FindTarget::Link => m is Link,
        FindTarget::Search => m is SearchMatch,
    }
}

/// The index of the first mark from `i` on that the cursor looking for `t` stops at, or the
/// number of marks.
pub open spec fn first_target(ms: Seq<Mark>, t: FindTarget, i: int) -> int
    decreases ms.len() - i,
{
    if i < 0 || i >= ms.len() {
        ms.len() as int
    } else if is_target(t, ms[i]) {
        i
    } else {
        first_target(ms, t, i + 1)
    }
}

/// The first place in a section where the cursor looking for `t` stops.
pub open spec fn locate(s: SectionMarksView, t: FindTarget) -> Option<CursorPointer> {
    match s.marks {
        Some(ms) => {
            let k = first_target(ms, t, 0);
            if k < ms.len() { Some(CursorPointer { id: s.id, index: k as usize }) } else { None }
        },
        None => None,
    }
}

/// Looking for the first place to put the cursor, from section `i` on, with `acc` lines above
/// it: the first place in the first section that reaches below the line `scroll`, or, without
/// one, the first place in the sections above.
pub open spec fn first_cursor_from(ss: Seq<SectionMarksView>, t: FindTarget, scroll: u16, i: int, acc: int, first: Option<CursorPointer>) -> Option<CursorPointer>
    decreases ss.len() - i,
{
    if i < 0 || i >= ss.len() {
        first
    } else {
        let acc1 = acc + ss[i].height;
        if acc1 < scroll + 1 {
            first_cursor_from(ss, t, scroll, i + 1, acc1, if first is None { locate(ss[i], t) } else { first })
        } else {
            match locate(ss[i], t) {
                Some(p) => Some(p),
                None => first_cursor_from(ss, t, scroll, i + 1, acc1, first),
            }
        }
    }
}

/// The sum of the heights of the sections `ss[..n]`.
pub open spec fn marks_heights(ss: Seq<SectionMarksView>, n: int) -> int
    decreases n,
{
    if n <= 0 || n > ss.len() { 0 } else { marks_heights(ss, n - 1) + ss[n - 1].height }
}

proof fn lemma_marks_heights_mono(ss: Seq<SectionMarksView>, a: int, b: int)
    requires
        0 <= a <= b <= ss.len(),
    ensures
        marks_heights(ss, a) <= marks_heights(ss, b),
    decreases b - a,
{
    if a < b {
        lemma_marks_heights_mono(ss, a, b - 1);
    }
}

/// Whether the cursor looking for `t` stops at mark `m`.
fn is_target_exec(t: FindTarget, m: Mark) -> (b: bool)
    ensures
        b == is_target(t, m),
{
    match t {
        FindTarget::Link => match m {
            Mark::Link(_, _, _) => true,
            _ => false,
        },
        FindTarget::Search => match m {
            Mark::SearchMatch(_, _) => true,
            _ => false,
        },
    }
}

/// The first place in a section (see [`locate`]).
fn locate_exec(s: &SectionMarks, t: FindTarget) -> (r: Option<CursorPointer>)
    ensures
        r == locate(s@, t),
{
    match &s.marks {
        None => None,
        Some(ms) => {
            let n = ms.len();
            let mut k: usize = 0;
            while k < n && !is_target_exec(t, ms[k])
                invariant
                    n == ms@.len(),
                    k <= n,
                    first_target(ms@, t, 0) == first_target(ms@, t, k as int),
                decreases n - k,
            {
                k = k + 1;
            }
            if k < n { Some(CursorPointer { id: s.id, index: k }) } else { None }
        },
    }
}

/// The first place to put the cursor looking for `t`, with the view at line `scroll` (see
/// [`first_cursor_from`]).
pub fn find_first_cursor(sections: &Vec<SectionMarks>, t: FindTarget, scroll: u16) -> (r: Option<CursorPointer>)
    requires
        marks_heights(marks_view(sections@), sections@.len() as int) <= u16::MAX,
        sections@.len() == 0 || scroll < u16::MAX,
    ensures
        r == first_cursor_from(marks_view(sections@), t, scroll, 0, 0, None),
{
    let ghost ss = marks_view(sections@);
    let n = sections.len();
    let mut first: Option<CursorPointer> = None;
    let mut acc: u16 = 0;
    let mut i: usize = 0;
    while i < n
        invariant
            n == ss.len(),
            ss == marks_view(sections@),
            i <= n,
            n > 0 ==> scroll < u16::MAX,
            acc == marks_heights(ss, i as int),
            marks_heights(ss, n as int) <= u16::MAX,
            first_cursor_from(ss, t, scroll, 0, 0, None) == first_cursor_from(ss, t, scroll, i as int, acc as int, first),
        decreases n - i,
    {
        proof {
            lemma_marks_heights_mono(ss, i + 1, n as int);
            lemma_marks_heights_mono(ss, 0, i as int);
            assert(ss[i as int] == sections@[i as int]@);
        }
        acc = acc + sections[i].height;
        if acc < scroll + 1 {
            if first.is_none() {
                first = locate_exec(&sections[i], t);
            }
        } else {
            match locate_exec(&sections[i], t) {
                Some(p) => return Some(p),
                None => {},
            }
        }
        i = i + 1;
    }
    first
}


/// The places in the marks `ms[..n]` of section `id` where the cursor looking for `t` stops.
pub open spec fn target_pointers(id: usize, ms: Seq<Mark>, t: FindTarget, n: int) -> Seq<CursorPointer>
    decreases n,
{
    if n <= 0 || n > ms.len() {
        Seq::empty()
    } else {
        target_pointers(id, ms, t, n - 1) + if is_target(t, ms[n - 1]) {
            seq![CursorPointer { id, index: (n - 1) as usize }]
        } else {
            Seq::<CursorPointer>::empty()
        }
    }
}

/// The places in a section where the cursor looking for `t` stops, in order.
pub open spec fn section_pointers(s: SectionMarksView, t: FindTarget) -> Seq<CursorPointer> {
    match s.marks {
        Some(ms) => target_pointers(s.id, ms, t, ms.len() as int),
        None => Seq::empty(),
    }
}

/// The places in the sections `ss[..n]` where the cursor looking for `t` stops, in order.
pub open spec fn all_pointers(ss: Seq<SectionMarksView>, t: FindTarget, n: int) -> Seq<CursorPointer>
    decreases n,
{
    if n <= 0 || n > ss.len() {
        Seq::empty()
    } else {
        all_pointers(ss, t, n - 1) + section_pointers(ss[n - 1], t)
    }
}

/// The places where the cursor looking for `t` stops, in the order it visits them: down the
/// document, or up it.
pub open spec fn ordered_pointers(ss: Seq<SectionMarksView>, mode: FindMode, t: FindTarget) -> Seq<CursorPointer> {
    let all = all_pointers(ss, t, ss.len() as int);
    match mode {
        FindMode::Next => all,
        FindMode::Prev => all.reverse(),
    }
}

/// The index of the first `p` in `l` from `i` on, or the length of `l`.
pub open spec fn position_of(l: Seq<CursorPointer>, p: CursorPointer, i: int) -> int
    decreases l.len() - i,
{
    if i < 0 || i >= l.len() {
        l.len() as int
    } else if l[i] == p {
        i
    } else {
        position_of(l, p, i + 1)
    }
}

/// The place `steps` places after `current`, going round: the first place if `current` is
/// not among them, none if there is no place, and `current` itself if it is reached again.
pub open spec fn nth_next(ss: Seq<SectionMarksView>, current: CursorPointer, mode: FindMode, t: FindTarget, steps: u16) -> Option<CursorPointer> {
    let l = ordered_pointers(ss, mode, t);
    let pos = position_of(l, current, 0);
    if pos >= l.len() {
        if l.len() > 0 { Some(l[0]) } else { None }
    } else {
        let index = (pos + steps) % (l.len() as int);
        if index == pos { Some(current) } else { Some(l[index]) }
    }
}

/// Push the places of a section (see [`section_pointers`]).
fn push_section_pointers(out: &mut Vec<CursorPointer>, s: &SectionMarks, t: FindTarget)
    ensures
        final(out)@ == old(out)@ + section_pointers(s@, t),
{
    match &s.marks {
        None => {
            assert(old(out)@ + Seq::<CursorPointer>::empty() =~= old(out)@);
        },
        Some(ms) => {
            let ghost start = out@;
            for k in 0..ms.len()
                invariant
                    out@ == start + target_pointers(s.id, ms@, t, k as int),
            {
                if is_target_exec(t, ms[k]) {
                    out.push(CursorPointer { id: s.id, index: k });
                    proof {
                        assert(out@ =~= start + target_pointers(s.id, ms@, t, k + 1));
                    }
                } else {
                    proof {
                        assert(out@ =~= start + target_pointers(s.id, ms@, t, k + 1));
                    }
                }
            }
        },
    }
}

/// The places where the cursor looking for `t` stops, in visiting order (see
/// [`ordered_pointers`]).
pub fn pointers(sections: &Vec<SectionMarks>, mode: FindMode, t: FindTarget) -> (r: Vec<CursorPointer>)
    ensures
        r@ == ordered_pointers(marks_view(sections@), mode, t),
{
    let ghost ss = marks_view(sections@);
    let mut all: Vec<CursorPointer> = Vec::new();
    for i in 0..sections.len()
        invariant
            ss == marks_view(sections@),
            all@ == all_pointers(ss, t, i as int),
    {
        proof { assert(ss[i as int] == sections@[i as int]@); }
        push_section_pointers(&mut all, &sections[i], t);
    }
    match mode {
        FindMode::Next => all,
        FindMode::Prev => {
            let mut rev: Vec<CursorPointer> = Vec::new();
            let n = all.len();
            for k in 0..n
                invariant
                    n == all@.len(),
                    rev@ == all@.reverse().take(k as int),
            {
                rev.push(all[n - 1 - k]);
                proof { assert(rev@ =~= all@.reverse().take(k + 1)); }
            }
            assert(all@.reverse().take(n as int) =~= all@.reverse());
            rev
        },
    }
}

/// The place `steps` places after `current` (see [`nth_next`]); `steps` is at least one.
pub fn find_nth_next_cursor(sections: &Vec<SectionMarks>, current: &CursorPointer, mode: FindMode, t: FindTarget, steps: u16) -> (r: Option<CursorPointer>)
    requires
        steps > 0,
    ensures
        r == nth_next(marks_view(sections@), *current, mode, t, steps),
{
    let l = pointers(sections, mode, t);
    let n = l.len();
    let mut pos: usize = 0;
    while pos < n && l[pos] != *current
        invariant
            n == l@.len(),
            pos <= n,
            position_of(l@, *current, 0) == position_of(l@, *current, pos as int),
        decreases n - pos,
    {
        pos = pos + 1;
    }
    if pos >= n {
        if n > 0 { Some(l[0]) } else { None }
    } else {
        let index = ((pos as u128 + steps as u128) % (n as u128)) as usize;
        if index == pos { Some(*current) } else { Some(l[index]) }
    }
}

/// The URL identity of the link part at `p`: the mark at its index in the first section with
/// its id that has one there, from section `i` on.
pub open spec fn url_at(ss: Seq<SectionMarksView>, p: CursorPointer, i: int) -> Option<usize>
    decreases ss.len() - i,
{
    if i < 0 || i >= ss.len() {
        None
    } else {
        match ss[i].marks {
            Some(ms) => if ss[i].id == p.id && p.index < ms.len() && ms[p.index as int] is Link {
                Some(ms[p.index as int]->Link_0)
            } else {
                url_at(ss, p, i + 1)
            },
            None => url_at(ss, p, i + 1),
        }
    }
}

/// The URL identity of the link part at `p`, if it is one (see [`url_at`]).
pub fn url_at_pointer(sections: &Vec<SectionMarks>, p: &CursorPointer) -> (r: Option<usize>)
    ensures
        r == url_at(marks_view(sections@), *p, 0),
{
    let ghost ss = marks_view(sections@);
    let n = sections.len();
    let mut i: usize = 0;
    while i < n
        invariant
            n == ss.len(),
            ss == marks_view(sections@),
            i <= n,
            url_at(ss, *p, 0) == url_at(ss, *p, i as int),
        decreases n - i,
    {
        proof { assert(ss[i as int] == sections@[i as int]@); }
        if sections[i].id == p.id {
            match &sections[i].marks {
                Some(ms) => if p.index < ms.len() {
                    match ms[p.index] {
                        Mark::Link(u, _, _) => return Some(u),
                        _ => {},
                    }
                },
                None => {},
            }
        }
        i = i + 1;
    }
    None
}


/// Moving from place `p` past the parts of the link whose URL identity is `url` (a link broken
/// over lines), one place at a time, without coming back to `start`, for at most `fuel` steps.
pub open spec fn skip_same_url(ss: Seq<SectionMarksView>, mode: FindMode, url: usize, start: CursorPointer, p: CursorPointer, fuel: nat) -> CursorPointer
    decreases fuel,
{
    if fuel == 0 || url_at(ss, p, 0) != Some(url) || p == start {
        p
    } else {
        match nth_next(ss, p, mode, FindTarget::Link, 1) {
            Some(next) => if next == start { p } else { skip_same_url(ss, mode, url, start, next, (fuel - 1) as nat) },
            None => p,
        }
    }
}

/// The cursor after moving it `count` times (at least once) down or up the document with the
/// view at line `scroll`.
///
/// Without a cursor, it goes to the first link (see [`first_cursor_from`]), then moves on.
/// On a link, it moves `count` links at once, and then past the other parts of the same link
/// (as many steps at most as there are links). On a search without a match yet, it goes to
/// the first match, if there is one; on a match, it moves `count` matches, then again with
/// one count less, down to one.
pub open spec fn cursor_found(ss: Seq<SectionMarksView>, c: CursorView, count: u16, mode: FindMode, scroll: u16) -> CursorView
    decreases count,
{
    if count == 0 {
        c
    } else {
        let fuel = ordered_pointers(ss, mode, FindTarget::Link).len();
        match c {
            CursorView::Inactive => {
                let c1 = match first_cursor_from(ss, FindTarget::Link, scroll, 0, 0, None) {
                    Some(p) => CursorView::Links(p),
                    None => CursorView::Inactive,
                };
                if count > 1 { cursor_found(ss, c1, (count - 1) as u16, mode, scroll) } else { c1 }
            },
            CursorView::Links(current) => match nth_next(ss, current, mode, FindTarget::Link, count) {
                Some(p) => CursorView::Links(match url_at(ss, current, 0) {
                    Some(u) => skip_same_url(ss, mode, u, current, p, fuel),
                    None => p,
                }),
                None => if count > 1 { cursor_found(ss, c, (count - 1) as u16, mode, scroll) } else { c },
            },
            CursorView::Search(needle, None) => match first_cursor_from(ss, FindTarget::Search, scroll, 0, 0, None) {
                None => c,
                Some(p) => {
                    let c1 = CursorView::Search(needle, Some(p));
                    if count > 1 { cursor_found(ss, c1, (count - 1) as u16, mode, scroll) } else { c1 }
                },
            },
            CursorView::Search(needle, Some(current)) => {
                let c1 = CursorView::Search(needle, nth_next(ss, current, mode, FindTarget::Search, count));
                if count > 1 { cursor_found(ss, c1, (count - 1) as u16, mode, scroll) } else { c1 }
            },
        }
    }
}

/// Whether the link part at `p` has URL identity `url`.
fn has_url(sections: &Vec<SectionMarks>, p: &CursorPointer, url: usize) -> (b: bool)
    ensures
        b == (url_at(marks_view(sections@), *p, 0) == Some(url)),
{
    match url_at_pointer(sections, p) {
        Some(u) => u == url,
        None => false,
    }
}

/// Move past the parts of one link (see [`skip_same_url`]).
fn skip_same_url_exec(sections: &Vec<SectionMarks>, mode: FindMode, url: usize, start: &CursorPointer, p: CursorPointer, fuel: usize) -> (r: CursorPointer)
    ensures
        r == skip_same_url(marks_view(sections@), mode, url, *start, p, fuel as nat),
    decreases fuel,
{
    if fuel == 0 || !has_url(sections, &p, url) || p == *start {
        return p;
    }
    match find_nth_next_cursor(sections, &p, mode, FindTarget::Link, 1) {
        Some(next) => if next == *start { p } else { skip_same_url_exec(sections, mode, url, start, next, fuel - 1) },
        None => p,
    }
}

/// Move the cursor `count` times (see [`cursor_found`]).
pub fn cursor_find(sections: &Vec<SectionMarks>, cursor: &mut Cursor, count: u16, mode: FindMode, scroll: u16)
    requires
        count > 0,
        marks_heights(marks_view(sections@), sections@.len() as int) <= u16::MAX,
        sections@.len() == 0 || scroll < u16::MAX,
    ensures
        final(cursor)@ == cursor_found(marks_view(sections@), old(cursor)@, count, mode, scroll),
    decreases count,
{
    let ghost ss = marks_view(sections@);
    let mut recurse = true;
    let mut old_cursor = Cursor::Inactive;
    std::mem::swap(&mut old_cursor, cursor);
    match old_cursor {
        Cursor::Inactive => {
            match find_first_cursor(sections, FindTarget::Link, scroll) {
                Some(p) => {
                    *cursor = Cursor::Links(p);
                },
                None => {},
            }
        },
        Cursor::Links(current) => {
            match find_nth_next_cursor(sections, &current, mode, FindTarget::Link, count) {
                Some(p) => {
                    let fuel = pointers(sections, mode, FindTarget::Link).len();
                    let q = match url_at_pointer(sections, &current) {
                        Some(u) => skip_same_url_exec(sections, mode, u, &current, p, fuel),
                        None => p,
                    };
                    *cursor = Cursor::Links(q);
                    recurse = false;
                },
                None => {
                    *cursor = Cursor::Links(current);
                },
            }
        },
        Cursor::Search(needle, pointer) => {
            match pointer {
                None => {
                    let p = find_first_cursor(sections, FindTarget::Search, scroll);
                    if p.is_none() {
                        recurse = false;
                    }
                    *cursor = Cursor::Search(needle, p);
                },
                Some(current) => {
                    let p = find_nth_next_cursor(sections, &current, mode, FindTarget::Search, count);
                    *cursor = Cursor::Search(needle, p);
                },
            }
        },
    }
    if recurse && count > 1 {
        cursor_find(sections, cursor, count - 1, mode, scroll);
    }
}

/// The lines to scroll by so that the line `y` where the cursor's section starts is in view:
/// none when it is; the view shows from `scroll` to `inner_height - 2` lines below it (the
/// last line is not drawn).
pub open spec fn jump_lines(y: i16, scroll: u16, inner_height: u16) -> i32 {
    let from = scroll as int;
    let to = scroll + inner_height - 2;
    if y > to { (y - to) as i32 } else if y < from { (y - from) as i32 } else { 0 }
}

/// The lines to scroll by to bring line `y` into view (see [`jump_lines`]).
pub fn jump_to_line(y: i16, scroll: u16, inner_height: u16) -> (r: i32)
    requires
        scroll <= i16::MAX,
        inner_height <= i16::MAX,
        scroll + inner_height <= i16::MAX,
    ensures
        r == jump_lines(y, scroll, inner_height),
{
    let from: i16 = scroll as i16;
    let to: i16 = from + inner_height as i16 - 2;
    if y > to {
        (y as i32) - (to as i32)
    } else if y < from {
        (y as i32) - (from as i32)
    } else {
        0
    }
}

} // verus!
