//! The decisions around loading images and drawing headers: which work each parsed section
//! asks for, when a cached image can be used again, and where an image is placed.
use vstd::prelude::*;

use crate::inline::is_kind;

verus! {

/// What a parsed section is, as far as the work that it asks for goes.
#[derive(Debug, Clone)]
pub enum SectionKind {
    /// Lines, with the reference definitions (id, URL) found on them.
    Lines(Vec<(String, String)>),
    /// A code block in a language.
    Code(String),
    /// The placeholder of an image at a URL.
    ImagePlaceholder(String),
    /// A header that is already drawn big.
    Header,
    /// The placeholder of a header (text, tier), to be drawn big.
    HeaderPlaceholder(String, u8),
}

/// The mathematical value of a [`SectionKind`].
pub enum SectionKindView {
    Lines(Seq<(Seq<char>, Seq<char>)>),
    Code(Seq<char>),
    ImagePlaceholder(Seq<char>),
    Header,
    HeaderPlaceholder(Seq<char>, u8),
}

impl View for SectionKind {
    type V = SectionKindView;

    open spec fn view(&self) -> SectionKindView {
        match self {
            SectionKind::Lines(v) => SectionKindView::Lines(v@.map_values(|r: (String, String)| (r.0@, r.1@))),
            SectionKind::Code(l) => SectionKindView::Code(l@),
            SectionKind::ImagePlaceholder(u) => SectionKindView::ImagePlaceholder(u@),
            SectionKind::Header => SectionKindView::Header,
            SectionKind::HeaderPlaceholder(t, tier) => SectionKindView::HeaderPlaceholder(t@, *tier),
        }
    }
}

/// Work that a parsed section asks for.
#[derive(Debug, Clone, PartialEq, Eq)]
pub enum SectionJob {
    /// Make a reference definition (id, URL) known.
    ReferenceDefinition(String, String),
    /// Highlight the code of a section in a language.
    Code(usize, String),
    /// Load the image of a section from a URL.
    Image(usize, String),
    /// Draw the header (text, tier) of a section big.
    Header(usize, String, u8),
}

/// The mathematical value of a [`SectionJob`].
pub enum SectionJobView {
    ReferenceDefinition(Seq<char>, Seq<char>),
    Code(usize, Seq<char>),
    Image(usize, Seq<char>),
    Header(usize, Seq<char>, u8),
}

impl View for SectionJob {
    type V = SectionJobView;

    open spec fn view(&self) -> SectionJobView {
        match self {
            SectionJob::ReferenceDefinition(i, u) => SectionJobView::ReferenceDefinition(i@, u@),
            SectionJob::Code(id, l) => SectionJobView::Code(*id, l@),
            SectionJob::Image(id, u) => SectionJobView::Image(*id, u@),
            SectionJob::Header(id, t, tier) => SectionJobView::Header(*id, t@, *tier),
        }
    }
}

pub open spec fn jobs_view(v: Seq<SectionJob>) -> Seq<SectionJobView> {
    v.map_values(|j: SectionJob| j@)
}

/// The work that section `id` of kind `k` asks for: its reference definitions, its code to
/// highlight, its image to load, or its header to draw big when headers can be drawn.
pub open spec fn jobs_for(id: usize, k: SectionKindView, can_draw_headers: bool) -> Seq<SectionJobView> {
    match k {
        SectionKindView::Lines(refs) => refs.map_values(|r: (Seq<char>, Seq<char>)| SectionJobView::ReferenceDefinition(r.0, r.1)),
        SectionKindView::Code(l) => seq![SectionJobView::Code(id, l)],
        SectionKindView::ImagePlaceholder(u) => seq![SectionJobView::Image(id, u)],
        SectionKindView::Header => Seq::empty(),
        SectionKindView::HeaderPlaceholder(t, tier) => if can_draw_headers {
            seq![SectionJobView::Header(id, t, tier)]
        } else {
            Seq::empty()
        },
    }
}

/// The work that the first `n` sections ask for, in order.
pub open spec fn jobs_of(sections: Seq<(usize, SectionKindView)>, can_draw_headers: bool, n: int) -> Seq<SectionJobView>
    decreases n,
{
    if n <= 0 {
        Seq::empty()
    } else {
        jobs_of(sections, can_draw_headers, n - 1) + jobs_for(sections[n - 1].0, sections[n - 1].1, can_draw_headers)
    }
}

pub open spec fn kinds_view(v: Seq<(usize, SectionKind)>) -> Seq<(usize, SectionKindView)> {
    v.map_values(|s: (usize, SectionKind)| (s.0, s.1@))
}

/// The work that the sections (id, kind) of a parse ask for, in order (see [`jobs_of`]).
pub fn section_jobs(sections: &Vec<(usize, SectionKind)>, can_draw_headers: bool) -> (r: Vec<SectionJob>)
    ensures
        jobs_view(r@) == jobs_of(kinds_view(sections@), can_draw_headers, sections@.len() as int),
{
    let ghost kv = kinds_view(sections@);
    let mut out: Vec<SectionJob> = Vec::new();
    for i in 0..sections.len()
        invariant
            kv == kinds_view(sections@),
            jobs_view(out@) == jobs_of(kv, can_draw_headers, i as int),
    {
        let id = sections[i].0;
        proof { assert(kv[i as int] == (id, sections@[i as int].1@)); }
        let ghost before = jobs_view(out@);
        match &sections[i].1 {
            SectionKind::Lines(refs) => {
                let ghost rv = refs@.map_values(|r: (String, String)| (r.0@, r.1@));
                let ghost goal = rv.map_values(|r: (Seq<char>, Seq<char>)| SectionJobView::ReferenceDefinition(r.0, r.1));
                for k in 0..refs.len()
                    invariant
                        rv == refs@.map_values(|r: (String, String)| (r.0@, r.1@)),
                        goal == rv.map_values(|r: (Seq<char>, Seq<char>)| SectionJobView::ReferenceDefinition(r.0, r.1)),
                        jobs_view(out@) == before + goal.take(k as int),
                {
                    let j = SectionJob::ReferenceDefinition(refs[k].0.clone(), refs[k].1.clone());
                    let ghost o = out@;
                    out.push(j);
                    proof {
                        assert(goal[k as int] == j@);
                        assert(goal.take(k + 1) =~= goal.take(k as int).push(j@));
                        assert(jobs_view(out@) =~= jobs_view(o).push(j@));
                    }
                }
                proof { assert(goal.take(refs@.len() as int) =~= goal); }
            },
            SectionKind::Code(l) => {
                let j = SectionJob::Code(id, l.clone());
                let ghost o = out@;
                out.push(j);
                proof { assert(jobs_view(out@) =~= jobs_view(o) + seq![j@]); }
            },
            SectionKind::ImagePlaceholder(u) => {
                let j = SectionJob::Image(id, u.clone());
                let ghost o = out@;
                out.push(j);
                proof { assert(jobs_view(out@) =~= jobs_view(o) + seq![j@]); }
            },
            SectionKind::Header => {
                proof { assert(before + Seq::<SectionJobView>::empty() =~= before); }
            },
            SectionKind::HeaderPlaceholder(t, tier) => {
                if can_draw_headers {
                    let j = SectionJob::Header(id, t.clone(), *tier);
                    let ghost o = out@;
                    out.push(j);
                    proof { assert(jobs_view(out@) =~= jobs_view(o) + seq![j@]); }
                } else {
                    proof { assert(before + Seq::<SectionJobView>::empty() =~= before); }
                }
            },
        }
    }
    out
}

/// Whether an image cached for a width and a maximum size (width, height) can be shown
/// again: it was made for this width and for a maximum height that the configured one does
/// not go below.
pub fn image_cache_usable(width: u16, cached: (u16, u16), max_image_height: u16) -> (b: bool)
    ensures
        b == (cached.0 == width && max_image_height >= cached.1),
{
    width == cached.0 && max_image_height >= cached.1
}

/// Where an image for section `id` at a URL comes from.
#[derive(Debug, Clone, Copy, PartialEq, Eq, Structural)]
pub enum ImagePlan {
    /// The image of the section at this index, loaded before with the same URL (the section
    /// is left with a "replacing" line).
    ReuseSection(usize),
    /// The image kept at this index of the images updated before.
    ReuseStored(usize),
    /// No image with this URL is at hand: place a loading placeholder (pushed on a first
    /// load, else replacing the section) and ask for the image.
    Placeholder { push: bool },
}

/// The index of the first of `sections[k..]` (id, URL of its image if it holds one) that
/// holds an image with `url` and has an id not below `id`.
pub open spec fn reusable_section(sections: Seq<(usize, Option<Seq<char>>)>, id: usize, url: Seq<char>, k: int) -> Option<int>
    decreases sections.len() - k,
{
    if k < 0 || k >= sections.len() {
        None
    } else if sections[k].0 >= id && sections[k].1 == Some(url) {
        Some(k)
    } else {
        reusable_section(sections, id, url, k + 1)
    }
}

/// The index of the first of `stored[k..]` that is `url`.
pub open spec fn stored_index(stored: Seq<Seq<char>>, url: Seq<char>, k: int) -> Option<int>
    decreases stored.len() - k,
{
    if k < 0 || k >= stored.len() {
        None
    } else if stored[k] == url {
        Some(k)
    } else {
        stored_index(stored, url, k + 1)
    }
}

/// Where the image of section `id` at `url` comes from: the first section from `id` on
/// that holds an image with that URL; else the first stored image with it; else a
/// placeholder, pushed on a first load.
pub open spec fn image_plan(sections: Seq<(usize, Option<Seq<char>>)>, stored: Seq<Seq<char>>, id: usize, url: Seq<char>, first_load: bool) -> ImagePlan {
    match reusable_section(sections, id, url, 0) {
        Some(k) => ImagePlan::ReuseSection(k as usize),
        None => match stored_index(stored, url, 0) {
            Some(i) => ImagePlan::ReuseStored(i as usize),
            None => ImagePlan::Placeholder { push: first_load },
        },
    }
}

pub open spec fn slots_view(v: Seq<(usize, Option<String>)>) -> Seq<(usize, Option<Seq<char>>)> {
    v.map_values(|s: (usize, Option<String>)| (s.0, match s.1 { Some(u) => Some(u@), None => None }))
}

pub open spec fn urls_view(v: Seq<String>) -> Seq<Seq<char>> {
    v.map_values(|s: String| s@)
}

/// Where the image of section `id` at `url` comes from (see [`image_plan`]): `sections`
/// lists the document's sections in order, each by its id and the URL of its image if it
/// holds one, and `stored` the URLs of the images updated before.
pub fn place_image(sections: &Vec<(usize, Option<String>)>, stored: &Vec<String>, id: usize, url: &str, first_load: bool) -> (p: ImagePlan)
    ensures
        p == image_plan(slots_view(sections@), urls_view(stored@), id, url@, first_load),
{
    let ghost sv = slots_view(sections@);
    let ghost uv = urls_view(stored@);
    let mut k: usize = 0;
    while k < sections.len()
        invariant
            sv == slots_view(sections@),
            k <= sections@.len(),
            reusable_section(sv, id, url@, 0) == reusable_section(sv, id, url@, k as int),
        decreases sections@.len() - k,
    {
        proof { assert(sv[k as int] == (sections@[k as int].0, match sections@[k as int].1 { Some(u) => Some(u@), None => None })); }
        if sections[k].0 >= id {
            match &sections[k].1 {
                Some(u) => {
                    if is_kind(u, url) {
                        return ImagePlan::ReuseSection(k);
                    }
                },
                None => {},
            }
        }
        k = k + 1;
    }
    assert(reusable_section(sv, id, url@, k as int) is None);
    let mut i: usize = 0;
    while i < stored.len()
        invariant
            sv == slots_view(sections@),
            reusable_section(sv, id, url@, 0) is None,
            uv == urls_view(stored@),
            i <= stored@.len(),
            stored_index(uv, url@, 0) == stored_index(uv, url@, i as int),
        decreases stored@.len() - i,
    {
        proof { assert(uv[i as int] == stored@[i as int]@); }
        if is_kind(&stored[i], url) {
            return ImagePlan::ReuseStored(i);
        }
        i = i + 1;
    }
    ImagePlan::Placeholder { push: first_load }
}

} // verus!

verus! {

/// The index of the first of `lines[k..]` (text, whether it already shows an image) that
/// stands for an image at `url`: its text starts with `![` and holds the URL, and it shows
/// no image yet.
pub open spec fn image_line_spec(lines: Seq<(Seq<char>, bool)>, url: Seq<char>, k: int) -> Option<int>
    decreases lines.len() - k,
{
    if k < 0 || k >= lines.len() {
        None
    } else if seq!['!', '['].is_prefix_of(lines[k].0) && crate::inline::has_part(lines[k].0, url) && !lines[k].1 {
        Some(k)
    } else {
        image_line_spec(lines, url, k + 1)
    }
}

pub open spec fn image_lines_view(v: Seq<(String, bool)>) -> Seq<(Seq<char>, bool)> {
    v.map_values(|l: (String, bool)| (l.0@, l.1))
}

/// The line of a section that a loaded image at `url` goes to (see [`image_line_spec`]):
/// `lines` gives each line's text and whether it already shows an image.
pub fn image_line_for(lines: &Vec<(String, bool)>, url: &str) -> (r: Option<usize>)
    ensures
        match r {
            Some(k) => image_line_spec(image_lines_view(lines@), url@, 0) == Some(k as int),
            None => image_line_spec(image_lines_view(lines@), url@, 0) is None,
        },
{
    let ghost lv = image_lines_view(lines@);
    let u = crate::text::chars_of(url);
    let mut open: Vec<char> = Vec::new();
    open.push('!');
    open.push('[');
    assert(open@ =~= seq!['!', '[']);
    let mut k: usize = 0;
    while k < lines.len()
        invariant
            lv == image_lines_view(lines@),
            u@ == url@,
            open@ == seq!['!', '['],
            k <= lines@.len(),
            image_line_spec(lv, url@, 0) == image_line_spec(lv, url@, k as int),
        decreases lines@.len() - k,
    {
        proof { assert(lv[k as int] == (lines@[k as int].0@, lines@[k as int].1)); }
        let t = crate::text::chars_of(lines[k].0.as_str());
        if crate::terminal_font::starts_with(&t, &open) && crate::inline::contains_part(&t, &u) && !lines[k].1 {
            return Some(k);
        }
        k = k + 1;
    }
    None
}

/// The height of the first `n` lines of a section: each line is as high as the image it
/// shows, or one line (the sum saturates).
pub open spec fn lines_height(heights: Seq<Option<u16>>, n: int) -> u16
    decreases n,
{
    if n <= 0 {
        0
    } else {
        let h: u16 = match heights[n - 1] { Some(x) => x, None => 1 };
        lines_height(heights, n - 1).saturating_add(h)
    }
}

/// The height of a section whose lines show images of the given heights (see
/// [`lines_height`]).
pub fn section_height(heights: &Vec<Option<u16>>) -> (h: u16)
    ensures
        h == lines_height(heights@, heights@.len() as int),
{
    let mut h: u16 = 0;
    for i in 0..heights.len()
        invariant
            h == lines_height(heights@, i as int),
    {
        let x: u16 = match heights[i] {
            Some(x) => x,
            None => 1,
        };
        h = h.saturating_add(x);
    }
    h
}

/// Whether each job is done from the cache (`true`, an image usable again or a header drawn
/// before for this width, which is then taken out of the cache; and every reference
/// definition, which is sent at once) or is left to be done, from job `k` on.
/// `images` are the cached images (URL, the maximum size they were made for) and `headers`
/// the cached headers (text, tier) for the width.
pub open spec fn served_spec(
    jobs: Seq<SectionJobView>,
    width: u16,
    max_image_height: u16,
    images: Seq<(Seq<char>, (u16, u16))>,
    headers: Seq<(Seq<char>, u8)>,
    k: int,
) -> Seq<bool>
    decreases jobs.len() - k,
{
    if k < 0 || k >= jobs.len() {
        Seq::empty()
    } else {
        match jobs[k] {
            SectionJobView::ReferenceDefinition(_, _) => seq![true] + served_spec(jobs, width, max_image_height, images, headers, k + 1),
            SectionJobView::Code(_, _) => seq![false] + served_spec(jobs, width, max_image_height, images, headers, k + 1),
            SectionJobView::Image(_, url) => match cached_image(images, url, 0) {
                Some(i) => seq![images[i].1.0 == width && max_image_height >= images[i].1.1]
                    + served_spec(jobs, width, max_image_height, images.remove(i), headers, k + 1),
                None => seq![false] + served_spec(jobs, width, max_image_height, images, headers, k + 1),
            },
            SectionJobView::Header(_, t, tier) => match cached_header(headers, t, tier, 0) {
                Some(i) => seq![true] + served_spec(jobs, width, max_image_height, images, headers.remove(i), k + 1),
                None => seq![false] + served_spec(jobs, width, max_image_height, images, headers, k + 1),
            },
        }
    }
}

/// The index of the first of `images[k..]` cached for `url`.
pub open spec fn cached_image(images: Seq<(Seq<char>, (u16, u16))>, url: Seq<char>, k: int) -> Option<int>
    decreases images.len() - k,
{
    if k < 0 || k >= images.len() {
        None
    } else if images[k].0 == url {
        Some(k)
    } else {
        cached_image(images, url, k + 1)
    }
}

/// The index of the first of `headers[k..]` cached for the header (`text`, `tier`).
pub open spec fn cached_header(headers: Seq<(Seq<char>, u8)>, text: Seq<char>, tier: u8, k: int) -> Option<int>
    decreases headers.len() - k,
{
    if k < 0 || k >= headers.len() {
        None
    } else if headers[k].0 == text && headers[k].1 == tier {
        Some(k)
    } else {
        cached_header(headers, text, tier, k + 1)
    }
}

pub open spec fn images_view(v: Seq<(String, (u16, u16))>) -> Seq<(Seq<char>, (u16, u16))> {
    v.map_values(|x: (String, (u16, u16))| (x.0@, x.1))
}

pub open spec fn headers_view(v: Seq<(String, u8)>) -> Seq<(Seq<char>, u8)> {
    v.map_values(|x: (String, u8)| (x.0@, x.1))
}

fn find_image(images: &Vec<(String, (u16, u16))>, url: &String) -> (r: Option<usize>)
    ensures
        match r {
            Some(i) => cached_image(images_view(images@), url@, 0) == Some(i as int) && i < images@.len(),
            None => cached_image(images_view(images@), url@, 0) is None,
        },
{
    let ghost iv = images_view(images@);
    let mut k: usize = 0;
    while k < images.len()
        invariant
            iv == images_view(images@),
            k <= images@.len(),
            cached_image(iv, url@, 0) == cached_image(iv, url@, k as int),
        decreases images@.len() - k,
    {
        proof { assert(iv[k as int] == (images@[k as int].0@, images@[k as int].1)); }
        if is_kind(&images[k].0, url.as_str()) {
            return Some(k);
        }
        k = k + 1;
    }
    None
}

fn find_header(headers: &Vec<(String, u8)>, text: &String, tier: u8) -> (r: Option<usize>)
    ensures
        match r {
            Some(i) => cached_header(headers_view(headers@), text@, tier, 0) == Some(i as int) && i < headers@.len(),
            None => cached_header(headers_view(headers@), text@, tier, 0) is None,
        },
{
    let ghost hv = headers_view(headers@);
    let mut k: usize = 0;
    while k < headers.len()
        invariant
            hv == headers_view(headers@),
            k <= headers@.len(),
            cached_header(hv, text@, tier, 0) == cached_header(hv, text@, tier, k as int),
        decreases headers@.len() - k,
    {
        proof { assert(hv[k as int] == (headers@[k as int].0@, headers@[k as int].1)); }
        if is_kind(&headers[k].0, text.as_str()) && headers[k].1 == tier {
            return Some(k);
        }
        k = k + 1;
    }
    None
}

/// Which jobs the cache serves (see [`served_spec`]); what the cache served is taken out
/// of it.
pub fn serve_from_cache(
    jobs: &Vec<SectionJob>,
    width: u16,
    max_image_height: u16,
    images: &mut Vec<(String, (u16, u16))>,
    headers: &mut Vec<(String, u8)>,
) -> (r: Vec<bool>)
    ensures
        r@ == served_spec(jobs_view(jobs@), width, max_image_height, images_view(old(images)@), headers_view(old(headers)@), 0),
{
    let ghost jv = jobs_view(jobs@);
    let ghost goal = served_spec(jv, width, max_image_height, images_view(images@), headers_view(headers@), 0);
    let mut out: Vec<bool> = Vec::new();
    for k in 0..jobs.len()
        invariant
            jv == jobs_view(jobs@),
            goal == out@ + served_spec(jv, width, max_image_height, images_view(images@), headers_view(headers@), k as int),
    {
        proof { assert(jv[k as int] == jobs@[k as int]@); }
        let ghost iv = images_view(images@);
        let ghost hv = headers_view(headers@);
        let ghost rest = served_spec(jv, width, max_image_height, iv, hv, k + 1);
        match &jobs[k] {
            SectionJob::ReferenceDefinition(_, _) => {
                out.push(true);
                proof { assert(goal =~= out@ + rest); }
            },
            SectionJob::Code(_, _) => {
                out.push(false);
                proof { assert(goal =~= out@ + rest); }
            },
            SectionJob::Image(_, url) => {
                match find_image(images, url) {
                    Some(i) => {
                        let (mw, mh) = images[i].1;
                        let ok = mw == width && max_image_height >= mh;
                        proof { assert(iv[i as int] == (images@[i as int].0@, images@[i as int].1)); }
                        images.remove(i);
                        proof { assert(images_view(images@) =~= iv.remove(i as int)); }
                        out.push(ok);
                        proof {
                            let r2 = served_spec(jv, width, max_image_height, images_view(images@), hv, k + 1);
                            assert(goal =~= out@ + r2);
                        }
                    },
                    None => {
                        out.push(false);
                        proof { assert(goal =~= out@ + rest); }
                    },
                }
            },
            SectionJob::Header(_, t, tier) => {
                match find_header(headers, t, *tier) {
                    Some(i) => {
                        headers.remove(i);
                        proof { assert(headers_view(headers@) =~= hv.remove(i as int)); }
                        out.push(true);
                        proof {
                            let r2 = served_spec(jv, width, max_image_height, iv, headers_view(headers@), k + 1);
                            assert(goal =~= out@ + r2);
                        }
                    },
                    None => {
                        out.push(false);
                        proof { assert(goal =~= out@ + rest); }
                    },
                }
            },
        }
    }
    proof { assert(out@ + Seq::<bool>::empty() =~= out@); }
    out
}

} // verus!

verus! {

proof fn lemma_reusable_section(sections: Seq<(usize, Option<Seq<char>>)>, id: usize, url: Seq<char>, k: int)
    requires
        0 <= k,
    ensures
        match reusable_section(sections, id, url, k) {
            Some(j) => k <= j < sections.len() && sections[j].0 >= id && sections[j].1 == Some(url)
                && forall|i: int| k <= i < j ==> !((#[trigger] sections[i]).0 >= id && sections[i].1 == Some(url)),
            None => forall|i: int| k <= i < sections.len() ==> !((#[trigger] sections[i]).0 >= id && sections[i].1 == Some(url)),
        },
    decreases sections.len() - k,
{
    if k < sections.len() && !(sections[k].0 >= id && sections[k].1 == Some(url)) {
        lemma_reusable_section(sections, id, url, k + 1);
    }
}

proof fn lemma_stored_index(stored: Seq<Seq<char>>, url: Seq<char>, k: int)
    requires
        0 <= k,
    ensures
        match stored_index(stored, url, k) {
            Some(j) => k <= j < stored.len() && stored[j] == url && forall|i: int| k <= i < j ==> #[trigger] stored[i] != url,
            None => forall|i: int| k <= i < stored.len() ==> #[trigger] stored[i] != url,
        },
    decreases stored.len() - k,
{
    if k < stored.len() && stored[k] != url {
        lemma_stored_index(stored, url, k + 1);
    }
}

/// An image is taken from where it already is, if it is anywhere: from the first section,
/// from the one being placed on, that holds an image with the same URL; else from the first
/// stored image with that URL; only when there is none does a placeholder stand for it,
/// pushed exactly on a first load.
pub proof fn images_are_reused_before_loading(sections: Seq<(usize, Option<Seq<char>>)>, stored: Seq<Seq<char>>, id: usize, url: Seq<char>, first_load: bool)
    requires
        sections.len() <= usize::MAX,
        stored.len() <= usize::MAX,
    ensures
        match image_plan(sections, stored, id, url, first_load) {
            ImagePlan::ReuseSection(k) => k < sections.len() && sections[k as int].0 >= id && sections[k as int].1 == Some(url)
                && forall|i: int| 0 <= i < k ==> !((#[trigger] sections[i]).0 >= id && sections[i].1 == Some(url)),
            ImagePlan::ReuseStored(k) => k < stored.len() && stored[k as int] == url
                && (forall|i: int| 0 <= i < k ==> #[trigger] stored[i] != url)
                && forall|i: int| 0 <= i < sections.len() ==> !((#[trigger] sections[i]).0 >= id && sections[i].1 == Some(url)),
            ImagePlan::Placeholder { push } => push == first_load
                && (forall|i: int| 0 <= i < stored.len() ==> #[trigger] stored[i] != url)
                && forall|i: int| 0 <= i < sections.len() ==> !((#[trigger] sections[i]).0 >= id && sections[i].1 == Some(url)),
        },
{
    lemma_reusable_section(sections, id, url, 0);
    lemma_stored_index(stored, url, 0);
}

/// How many of the first `n` sections are of the kind that `pick` tells.
pub open spec fn kind_count(sections: Seq<(usize, SectionKindView)>, pick: spec_fn(SectionKindView) -> bool, n: int) -> nat
    decreases n,
{
    if n <= 0 {
        0
    } else {
        kind_count(sections, pick, n - 1) + if pick(sections[n - 1].1) { 1nat } else { 0nat }
    }
}

/// How many of the jobs are of the kind that `pick` tells.
pub open spec fn job_count(jobs: Seq<SectionJobView>, pick: spec_fn(SectionJobView) -> bool) -> nat
    decreases jobs.len(),
{
    if jobs.len() == 0 {
        0
    } else {
        job_count(jobs.drop_last(), pick) + if pick(jobs.last()) { 1nat } else { 0nat }
    }
}

proof fn lemma_job_count_add(a: Seq<SectionJobView>, b: Seq<SectionJobView>, pick: spec_fn(SectionJobView) -> bool)
    ensures
        job_count(a + b, pick) == job_count(a, pick) + job_count(b, pick),
    decreases b.len(),
{
    if b.len() == 0 {
        assert(a + b =~= a);
    } else {
        lemma_job_count_add(a, b.drop_last(), pick);
        assert((a + b).drop_last() =~= a + b.drop_last());
        assert((a + b).last() == b.last());
    }
}

proof fn lemma_job_count_one(j: SectionJobView, pick: spec_fn(SectionJobView) -> bool)
    ensures
        job_count(seq![j], pick) == if pick(j) { 1nat } else { 0nat },
{
    reveal_with_fuel(job_count, 2);
    assert(seq![j].drop_last() =~= Seq::<SectionJobView>::empty());
}


proof fn lemma_ref_jobs(refs: Seq<(Seq<char>, Seq<char>)>, pick: spec_fn(SectionJobView) -> bool, b: bool)
    requires
        forall|x: Seq<char>, y: Seq<char>| #[trigger] pick(SectionJobView::ReferenceDefinition(x, y)) == b,
    ensures
        job_count(refs.map_values(|r: (Seq<char>, Seq<char>)| SectionJobView::ReferenceDefinition(r.0, r.1)), pick)
            == if b { refs.len() } else { 0nat },
    decreases refs.len(),
{
    let m = refs.map_values(|r: (Seq<char>, Seq<char>)| SectionJobView::ReferenceDefinition(r.0, r.1));
    if refs.len() > 0 {
        lemma_ref_jobs(refs.drop_last(), pick, b);
        assert(m.drop_last() =~= refs.drop_last().map_values(|r: (Seq<char>, Seq<char>)| SectionJobView::ReferenceDefinition(r.0, r.1)));
        assert(m.last() == SectionJobView::ReferenceDefinition(refs.last().0, refs.last().1));
    } else {
        assert(m =~= Seq::<SectionJobView>::empty());
    }
}

/// How many reference definitions the first `n` sections hold.
pub open spec fn reference_total(sections: Seq<(usize, SectionKindView)>, n: int) -> nat
    decreases n,
{
    if n <= 0 {
        0
    } else {
        reference_total(sections, n - 1) + match sections[n - 1].1 {
            SectionKindView::Lines(refs) => refs.len(),
            _ => 0nat,
        }
    }
}

proof fn lemma_jobs_counts(sections: Seq<(usize, SectionKindView)>, can_draw_headers: bool, n: int)
    requires
        0 <= n <= sections.len(),
    ensures
        ({
            let jobs = jobs_of(sections, can_draw_headers, n);
            &&& job_count(jobs, |j: SectionJobView| j is Image) == kind_count(sections, |k: SectionKindView| k is ImagePlaceholder, n)
            &&& job_count(jobs, |j: SectionJobView| j is Code) == kind_count(sections, |k: SectionKindView| k is Code, n)
            &&& job_count(jobs, |j: SectionJobView| j is Header)
                == if can_draw_headers { kind_count(sections, |k: SectionKindView| k is HeaderPlaceholder, n) } else { 0nat }
            &&& job_count(jobs, |j: SectionJobView| j is ReferenceDefinition) == reference_total(sections, n)
        }),
    decreases n,
{
    let pi = |j: SectionJobView| j is Image;
    let pc = |j: SectionJobView| j is Code;
    let ph = |j: SectionJobView| j is Header;
    let pr = |j: SectionJobView| j is ReferenceDefinition;
    if n > 0 {
        lemma_jobs_counts(sections, can_draw_headers, n - 1);
        let prev = jobs_of(sections, can_draw_headers, n - 1);
        let (id, k) = sections[n - 1];
        let more = jobs_for(id, k, can_draw_headers);
        lemma_job_count_add(prev, more, pi);
        lemma_job_count_add(prev, more, pc);
        lemma_job_count_add(prev, more, ph);
        lemma_job_count_add(prev, more, pr);
        match k {
            SectionKindView::Lines(refs) => {
                lemma_ref_jobs(refs, pi, false);
                lemma_ref_jobs(refs, pc, false);
                lemma_ref_jobs(refs, ph, false);
                lemma_ref_jobs(refs, pr, true);
            },
            SectionKindView::Header => {
                assert(more =~= Seq::<SectionJobView>::empty());
            },
            SectionKindView::HeaderPlaceholder(_, _) => {
                if can_draw_headers {
                    lemma_job_count_one(more[0], pi);
                    lemma_job_count_one(more[0], pc);
                    lemma_job_count_one(more[0], ph);
                    lemma_job_count_one(more[0], pr);
                    assert(more =~= seq![more[0]]);
                } else {
                    assert(more =~= Seq::<SectionJobView>::empty());
                }
            },
            _ => {
                lemma_job_count_one(more[0], pi);
                lemma_job_count_one(more[0], pc);
                lemma_job_count_one(more[0], ph);
                lemma_job_count_one(more[0], pr);
                assert(more =~= seq![more[0]]);
            },
        }
    }
}

/// Each section asks for the work of its kind and no other: there are as many image loads
/// as image placeholders, as many highlightings as code blocks, as many header drawings as
/// header placeholders when headers can be drawn (and none otherwise), and as many reference
/// definitions as the lines hold.
pub proof fn each_section_asks_for_its_work(sections: Seq<(usize, SectionKindView)>, can_draw_headers: bool)
    ensures
        ({
            let n = sections.len() as int;
            let jobs = jobs_of(sections, can_draw_headers, n);
            &&& job_count(jobs, |j: SectionJobView| j is Image) == kind_count(sections, |k: SectionKindView| k is ImagePlaceholder, n)
            &&& job_count(jobs, |j: SectionJobView| j is Code) == kind_count(sections, |k: SectionKindView| k is Code, n)
            &&& job_count(jobs, |j: SectionJobView| j is Header)
                == if can_draw_headers { kind_count(sections, |k: SectionKindView| k is HeaderPlaceholder, n) } else { 0nat }
            &&& job_count(jobs, |j: SectionJobView| j is ReferenceDefinition) == reference_total(sections, n)
        }),
{
    lemma_jobs_counts(sections, can_draw_headers, sections.len() as int);
}

} // verus!
