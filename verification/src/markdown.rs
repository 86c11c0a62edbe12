//! The markdown document model: sections with their content and nesting, and the span-level
//! passes applied to paragraphs (newline splitting, bare URL detection, blockquote markers).
use vstd::prelude::*;

use crate::modifier::Modifier;
use crate::span::{
    Span, SpanView, SourceContent, spans_view, plain, lemma_spans_view_push, lemma_spans_view_add,
};
use crate::text::{
    byte_offset, is_boundary, char_index, chars_of, string_of_range, byte_offsets, find_char_index,
    lemma_char_index,
};

verus! {

/// The regular expression of bare URLs: `http://` or `https://` and what follows up to
/// whitespace or one of `<>[]()`.
pub const URL_PATTERN: &'static str = "https?://[^\\s<>\\[\\]()]+";

/// The byte ranges of the successive non-overlapping matches of the regular expression
/// `pattern` in `text`, as `regex::Regex::find_iter` finds them, or `None` when `pattern`
/// does not compile.
pub uninterp spec fn regex_find_iter(pattern: Seq<char>, text: Seq<char>) -> Option<Seq<(usize, usize)>>;

/// Byte ranges that are ordered, do not overlap, and start and end at character boundaries
/// of `text`.
pub open spec fn ranges_ok(text: Seq<char>, r: Seq<(usize, usize)>) -> bool {
    &&& forall|i: int| 0 <= i < r.len() ==> (#[trigger] r[i]).0 <= r[i].1 && is_boundary(text, r[i].0 as int) && is_boundary(text, r[i].1 as int)
    &&& forall|i: int, j: int| 0 <= i < j < r.len() ==> (#[trigger] r[i]).1 <= (#[trigger] r[j]).0
}

/// `regex::Regex::new(pattern)` and then `find_iter(text)`, each match as its byte range.
///
/// Trusted: the ranges are the named result; the regex documentation states that
/// `find_iter` yields successive non-overlapping matches, from left to right, and that match
/// offsets of a `&str` search always fall on UTF-8 character boundaries.
#[verifier::external_body]
fn regex_find_ranges(pattern: &str, text: &str) -> (r: Option<Vec<(usize, usize)>>)
    ensures
        match r {
            Some(v) => regex_find_iter(pattern@, text@) == Some(v@) && ranges_ok(text@, v@),
            None => regex_find_iter(pattern@, text@) is None,
        },
{
    match regex::Regex::new(pattern) {
        Ok(re) => Some(re.find_iter(text).map(|m| (m.start(), m.end())).collect()),
        Err(_) => None,
    }
}


/// Byte ranges of `text` as character ranges.
pub open spec fn char_ranges(text: Seq<char>, r: Seq<(usize, usize)>) -> Seq<(int, int)> {
    r.map_values(|p: (usize, usize)| (char_index(text, p.0 as int), char_index(text, p.1 as int)))
}

/// The modifiers of a span without the start of a source line.
pub open spec fn base_modifiers(m: Modifier) -> Modifier {
    Modifier { bits: m.bits & !Modifier::NEW_LINE }
}

/// The spans into which bare URLs at character ranges `ms[k..]` split span `v`, from
/// position `last_end` on; `first` tells whether a span was already emitted (only the first
/// emitted span keeps the start of a source line).
pub open spec fn url_pieces(v: SpanView, ms: Seq<(int, int)>, k: int, last_end: int, first: bool) -> Seq<SpanView>
    decreases ms.len() - k,
{
    let c = v.content;
    let base = base_modifiers(v.modifiers);
    if k < 0 || k >= ms.len() {
        if last_end < c.len() {
            seq![plain(c.subrange(last_end, c.len() as int), base)]
        } else {
            Seq::empty()
        }
    } else {
        let s = ms[k].0;
        let e = ms[k].1;
        let emit_before = s > last_end;
        let before = if emit_before {
            seq![plain(c.subrange(last_end, s), if first { base } else { v.modifiers })]
        } else {
            Seq::<SpanView>::empty()
        };
        let first1 = first || emit_before;
        let wm = if first1 { base.bits | Modifier::LINK_URL_WRAPPER } else { v.modifiers.bits | Modifier::LINK_URL_WRAPPER };
        let url = c.subrange(s, e);
        before + seq![
            plain(seq!['('], Modifier { bits: wm }),
            SpanView { content: url, modifiers: Modifier { bits: base.bits | (Modifier::LINK_URL | Modifier::BARE_LINK) }, source: Some(url) },
            plain(seq![')'], Modifier { bits: base.bits | Modifier::LINK_URL_WRAPPER }),
        ] + url_pieces(v, ms, k + 1, e, true)
    }
}

/// The spans of `v` with its bare URLs marked: each URL becomes a link URL span between
/// parentheses. Spans that are already part of a link, or code, are kept as they are.
pub open spec fn span_urls(v: SpanView) -> Seq<SpanView> {
    if v.modifiers.meets(Modifier::LINK | Modifier::LINK_URL | Modifier::CODE) {
        seq![v]
    } else {
        match regex_find_iter(URL_PATTERN@, v.content) {
            Some(r) => if r.len() > 0 && byte_offset(v.content, v.content.len() as int) <= usize::MAX {
                url_pieces(v, char_ranges(v.content, r), 0, 0, false)
            } else {
                seq![v]
            },
            None => seq![v],
        }
    }
}

/// Bare URL detection over the first `n` spans.
pub open spec fn detect_urls_spec(spans: Seq<SpanView>, n: int) -> Seq<SpanView>
    decreases n,
{
    if n <= 0 {
        Seq::empty()
    } else {
        detect_urls_spec(spans, n - 1) + span_urls(spans[n - 1])
    }
}

proof fn lemma_char_index_order(text: Seq<char>, a: int, b: int)
    requires
        is_boundary(text, a),
        is_boundary(text, b),
        a <= b,
    ensures
        char_index(text, a) <= char_index(text, b),
{
    lemma_char_index(text, a);
    lemma_char_index(text, b);
    if char_index(text, b) < char_index(text, a) {
        crate::text::lemma_byte_offset_mono(text, char_index(text, b) + 1, char_index(text, a));
    }
}

/// The text of spans, leaving out the URL parentheses (the spans that carry
/// `LINK_URL_WRAPPER`).
pub open spec fn text_without_url_wrappers(s: Seq<SpanView>) -> Seq<char>
    decreases s.len(),
{
    if s.len() == 0 {
        Seq::empty()
    } else {
        text_without_url_wrappers(s.drop_last()) + if s.last().modifiers.meets(Modifier::LINK_URL_WRAPPER) {
            Seq::<char>::empty()
        } else {
            s.last().content
        }
    }
}

proof fn lemma_text_without_url_wrappers_add(a: Seq<SpanView>, b: Seq<SpanView>)
    ensures
        text_without_url_wrappers(a + b) == text_without_url_wrappers(a) + text_without_url_wrappers(b),
    decreases b.len(),
{
    if b.len() == 0 {
        assert(a + b =~= a);
        assert(text_without_url_wrappers(a) + Seq::<char>::empty() =~= text_without_url_wrappers(a));
    } else {
        lemma_text_without_url_wrappers_add(a, b.drop_last());
        assert((a + b).drop_last() =~= a + b.drop_last());
        assert((a + b).last() == b.last());
    }
}

/// The flags of the pieces of a span without URL parentheses: only the parentheses carry
/// `LINK_URL_WRAPPER`.
proof fn lemma_url_piece_bits(m: u32)
    requires
        m & Modifier::LINK_URL_WRAPPER == 0,
    ensures
        (m & !Modifier::NEW_LINE) & Modifier::LINK_URL_WRAPPER == 0,
        ((m & !Modifier::NEW_LINE) | (Modifier::LINK_URL | Modifier::BARE_LINK)) & Modifier::LINK_URL_WRAPPER == 0,
        ((m & !Modifier::NEW_LINE) | Modifier::LINK_URL_WRAPPER) & Modifier::LINK_URL_WRAPPER != 0,
        (m | Modifier::LINK_URL_WRAPPER) & Modifier::LINK_URL_WRAPPER != 0,
{
    assert(m & Modifier::LINK_URL_WRAPPER == 0 ==> (
        (m & !Modifier::NEW_LINE) & Modifier::LINK_URL_WRAPPER == 0
        && ((m & !Modifier::NEW_LINE) | (Modifier::LINK_URL | Modifier::BARE_LINK)) & Modifier::LINK_URL_WRAPPER == 0
        && ((m & !Modifier::NEW_LINE) | Modifier::LINK_URL_WRAPPER) & Modifier::LINK_URL_WRAPPER != 0
        && (m | Modifier::LINK_URL_WRAPPER) & Modifier::LINK_URL_WRAPPER != 0
    )) by (bit_vector);
}

proof fn lemma_pieces_text(v: SpanView, ms: Seq<(int, int)>, k: int, last_end: int, first: bool)
    requires
        !v.modifiers.meets(Modifier::LINK_URL_WRAPPER),
        0 <= k <= ms.len(),
        0 <= last_end <= v.content.len(),
        forall|j: int| 0 <= j < ms.len() ==> 0 <= (#[trigger] ms[j]).0 <= ms[j].1 <= v.content.len(),
        forall|i: int, j: int| 0 <= i < j < ms.len() ==> (#[trigger] ms[i]).1 <= (#[trigger] ms[j]).0,
        k < ms.len() ==> last_end <= ms[k].0,
    ensures
        text_without_url_wrappers(url_pieces(v, ms, k, last_end, first)) == v.content.subrange(last_end, v.content.len() as int),
    decreases ms.len() - k,
{
    let c = v.content;
    let base = base_modifiers(v.modifiers);
    lemma_url_piece_bits(v.modifiers.bits);
    if k >= ms.len() {
        if last_end < c.len() {
            let p = seq![plain(c.subrange(last_end, c.len() as int), base)];
            reveal_with_fuel(text_without_url_wrappers, 2);
            assert(p.drop_last() =~= Seq::<SpanView>::empty());
            assert(text_without_url_wrappers(p) =~= c.subrange(last_end, c.len() as int));
        } else {
            assert(c.subrange(last_end, c.len() as int) =~= Seq::<char>::empty());
        }
    } else {
        let s = ms[k].0;
        let e = ms[k].1;
        if k + 1 < ms.len() {
            assert(ms[k].1 <= ms[k + 1].0);
        }
        lemma_pieces_text(v, ms, k + 1, e, true);
        let before = if s > last_end {
            seq![plain(c.subrange(last_end, s), if first { base } else { v.modifiers })]
        } else {
            Seq::<SpanView>::empty()
        };
        let first1 = first || s > last_end;
        let wm = if first1 { base.bits | Modifier::LINK_URL_WRAPPER } else { v.modifiers.bits | Modifier::LINK_URL_WRAPPER };
        let url = c.subrange(s, e);
        let mid = seq![
            plain(seq!['('], Modifier { bits: wm }),
            SpanView { content: url, modifiers: Modifier { bits: base.bits | (Modifier::LINK_URL | Modifier::BARE_LINK) }, source: Some(url) },
            plain(seq![')'], Modifier { bits: base.bits | Modifier::LINK_URL_WRAPPER }),
        ];
        let rest = url_pieces(v, ms, k + 1, e, true);
        assert(url_pieces(v, ms, k, last_end, first) == before + mid + rest);
        lemma_text_without_url_wrappers_add(before + mid, rest);
        lemma_text_without_url_wrappers_add(before, mid);
        assert(text_without_url_wrappers(before) =~= c.subrange(last_end, s)) by {
            reveal_with_fuel(text_without_url_wrappers, 2);
            if s > last_end {
                assert(before.drop_last() =~= Seq::<SpanView>::empty());
            }
        }
        assert(text_without_url_wrappers(mid) =~= url) by {
            reveal_with_fuel(text_without_url_wrappers, 4);
            assert(mid.drop_last().drop_last().drop_last() =~= Seq::<SpanView>::empty());
            assert(mid.drop_last().drop_last() =~= seq![mid[0]]);
            assert(mid.drop_last() =~= seq![mid[0], mid[1]]);
        }
        assert(c.subrange(last_end, s) + url + c.subrange(e, c.len() as int) =~= c.subrange(last_end, c.len() as int));
    }
}

/// Bare URL detection keeps the text of a span: leaving out the parentheses that it puts
/// around URLs, the pieces re-form the span's text. This holds of a span that carries no URL
/// parentheses of its own, where the URL matches are ordered, do not overlap and fall on
/// character boundaries (as [`detect_bare_urls`] states of every span it looks into).
pub proof fn url_pieces_reform_text(v: SpanView)
    requires
        !v.modifiers.meets(Modifier::LINK_URL_WRAPPER),
        url_matches_ok(v),
    ensures
        text_without_url_wrappers(span_urls(v)) == v.content,
{
    let one = seq![v];
    reveal_with_fuel(text_without_url_wrappers, 2);
    assert(one.drop_last() =~= Seq::<SpanView>::empty());
    assert(one.last() == v);
    assert(text_without_url_wrappers(one) =~= v.content);
    if !v.modifiers.meets(Modifier::LINK | Modifier::LINK_URL | Modifier::CODE) {
        match regex_find_iter(URL_PATTERN@, v.content) {
            Some(r) => if r.len() > 0 && byte_offset(v.content, v.content.len() as int) <= usize::MAX {
                let c = v.content;
                let ms = char_ranges(c, r);
                assert forall|j: int| 0 <= j < ms.len() implies 0 <= (#[trigger] ms[j]).0 <= ms[j].1 <= c.len() by {
                    assert(r[j].0 <= r[j].1 && is_boundary(c, r[j].0 as int) && is_boundary(c, r[j].1 as int));
                    lemma_char_index(c, r[j].0 as int);
                    lemma_char_index(c, r[j].1 as int);
                    lemma_char_index_order(c, r[j].0 as int, r[j].1 as int);
                }
                assert forall|i: int, j: int| 0 <= i < j < ms.len() implies (#[trigger] ms[i]).1 <= (#[trigger] ms[j]).0 by {
                    assert(r[i].1 <= r[j].0);
                    assert(is_boundary(c, r[i].1 as int) && is_boundary(c, r[j].0 as int));
                    lemma_char_index_order(c, r[i].1 as int, r[j].0 as int);
                }
                lemma_pieces_text(v, ms, 0, 0, false);
                assert(c.subrange(0, c.len() as int) =~= c);
            },
            None => {},
        }
    }
}

/// Bare URL detection keeps the text of spans: leaving out the URL parentheses it adds, the
/// detected spans re-form the text of the spans it was given (spans without URL
/// parentheses of their own, whose URL matches are well formed, as [`detect_bare_urls`]
/// states of its input).
pub proof fn detect_bare_urls_keeps_text(spans: Seq<SpanView>, n: int)
    requires
        0 <= n <= spans.len(),
        forall|i: int| 0 <= i < spans.len() ==> !(#[trigger] spans[i]).modifiers.meets(Modifier::LINK_URL_WRAPPER) && url_matches_ok(spans[i]),
    ensures
        text_without_url_wrappers(detect_urls_spec(spans, n)) == spans_text(spans.take(n)),
    decreases n,
{
    if n == 0 {
        assert(spans.take(0) =~= Seq::<SpanView>::empty());
    } else {
        detect_bare_urls_keeps_text(spans, n - 1);
        url_pieces_reform_text(spans[n - 1]);
        lemma_text_without_url_wrappers_add(detect_urls_spec(spans, n - 1), span_urls(spans[n - 1]));
        assert(spans.take(n).drop_last() =~= spans.take(n - 1));
        assert(spans.take(n).last() == spans[n - 1]);
    }
}

/// Push the pieces of span `span` cut at the character ranges of its bare URLs.
fn push_url_pieces(out: &mut Vec<Span>, span: &Span, chars: &Vec<char>, offsets: &Vec<usize>, r: &Vec<(usize, usize)>)
    requires
        chars@ == span@.content,
        offsets@.len() == chars@.len() + 1,
        forall|k: int| 0 <= k <= chars@.len() ==> #[trigger] offsets@[k] == byte_offset(chars@, k),
        ranges_ok(chars@, r@),
    ensures
        spans_view(final(out)@) == spans_view(old(out)@) + url_pieces(span@, char_ranges(chars@, r@), 0, 0, false),
{
    let ghost ms = char_ranges(chars@, r@);
    let ghost goal = spans_view(out@) + url_pieces(span@, ms, 0, 0, false);
    let base = span.modifiers.difference(Modifier::NEW_LINE);
    let mut last_end: usize = 0;
    let mut first_emitted = false;
    for k in 0..r.len()
        invariant
            chars@ == span@.content,
            offsets@.len() == chars@.len() + 1,
            forall|j: int| 0 <= j <= chars@.len() ==> #[trigger] offsets@[j] == byte_offset(chars@, j),
            ranges_ok(chars@, r@),
            ms == char_ranges(chars@, r@),
            base == base_modifiers(span@.modifiers),
            last_end <= chars@.len(),
            k > 0 ==> last_end == ms[k - 1].1,
            k > 0 ==> first_emitted,
            k == 0 ==> last_end == 0 && !first_emitted,
            goal == spans_view(out@) + url_pieces(span@, ms, k as int, last_end as int, first_emitted),
    {
        let (bs, be) = r[k];
        proof {
            let p = r@[k as int];
            assert(p.0 <= p.1 && is_boundary(chars@, p.0 as int) && is_boundary(chars@, p.1 as int));
            lemma_char_index(chars@, bs as int);
            lemma_char_index(chars@, be as int);
            lemma_char_index_order(chars@, bs as int, be as int);
            if k > 0 {
                let q = r@[k - 1];
                assert(q.1 <= p.0);
                assert(is_boundary(chars@, q.1 as int));
                lemma_char_index_order(chars@, q.1 as int, bs as int);
            }
        }
        let s = find_char_index(offsets, chars, bs);
        let e = find_char_index(offsets, chars, be);
        assert(ms[k as int] == (s as int, e as int));
        let emit_before = s > last_end;
        let ghost prev = out@;
        let ghost f0 = first_emitted;
        let ghost le = last_end as int;
        let mut before: Vec<Span> = Vec::new();
        if emit_before {
            let mods = if first_emitted { base } else { span.modifiers };
            let sp = Span::new(string_of_range(chars, last_end, s), mods);
            before.push(sp);
            first_emitted = true;
        }
        let wrapper_mods = if first_emitted { base.union(Modifier::LINK_URL_WRAPPER) } else { span.modifiers.union(Modifier::LINK_URL_WRAPPER) };
        first_emitted = true;
        let url = string_of_range(chars, s, e);
        let url_source = SourceContent::from_str(url.as_str());
        let p1 = Span::new("(".to_owned(), wrapper_mods);
        let p2 = Span::link(url, base.union(Modifier::LINK_URL | Modifier::BARE_LINK), Some(url_source));
        let p3 = Span::new(")".to_owned(), base.union(Modifier::LINK_URL_WRAPPER));
        let ghost bv = before@;
        out.append(&mut before);
        out.push(p1);
        out.push(p2);
        out.push(p3);
        proof {
            reveal_strlit("(");
            reveal_strlit(")");
            assert("("@ =~= seq!['(']);
            assert(")"@ =~= seq![')']);
            let c = span@.content;
            let before_spec = if s > le {
                seq![plain(c.subrange(le, s as int), if f0 { base } else { span@.modifiers })]
            } else {
                Seq::<SpanView>::empty()
            };
            assert(spans_view(bv) =~= before_spec);
            assert(url_pieces(span@, ms, k as int, le, f0) == before_spec + seq![p1@, p2@, p3@] + url_pieces(span@, ms, k + 1, e as int, true));
            assert(spans_view(out@) =~= spans_view(prev) + spans_view(bv) + seq![p1@, p2@, p3@]);
        }
        last_end = e;
    }
    if last_end < chars.len() {
        let ghost prev = out@;
        let sp = Span::new(string_of_range(chars, last_end, chars.len()), base);
        out.push(sp);
        proof { lemma_spans_view_push(prev, sp); }
    }
}


fn push_copy(out: &mut Vec<Span>, span: &Span)
    ensures
        spans_view(final(out)@) == spans_view(old(out)@) + seq![span@],
{
    let ghost prev = out@;
    let c = span.copy();
    out.push(c);
    proof {
        lemma_spans_view_push(prev, c);
        assert(spans_view(prev).push(c@) =~= spans_view(prev) + seq![span@]);
    }
}

/// The URL matches that bare URL detection uses for span `v` are ordered, do not overlap and
/// fall on character boundaries (spans that are part of a link, or code, are not looked into).
pub open spec fn url_matches_ok(v: SpanView) -> bool {
    !v.modifiers.meets(Modifier::LINK | Modifier::LINK_URL | Modifier::CODE) ==> match regex_find_iter(URL_PATTERN@, v.content) {
        Some(r) => ranges_ok(v.content, r),
        None => true,
    }
}

/// Detect bare URLs in spans and mark them as link URLs between parentheses (see
/// [`span_urls`]). Skips spans that already have link-related modifiers, or code.
pub fn detect_bare_urls(mdspans: Vec<Span>) -> (r: Vec<Span>)
    ensures
        spans_view(r@) == detect_urls_spec(spans_view(mdspans@), mdspans@.len() as int),
        forall|i: int| 0 <= i < mdspans@.len() ==> url_matches_ok(#[trigger] mdspans@[i]@),
{
    let mut result: Vec<Span> = Vec::new();
    for i in 0..mdspans.len()
        invariant
            spans_view(result@) == detect_urls_spec(spans_view(mdspans@), i as int),
            forall|j: int| 0 <= j < i ==> url_matches_ok(#[trigger] mdspans@[j]@),
    {
        let span = &mdspans[i];
        proof { assert(spans_view(mdspans@)[i as int] == span@); }
        if span.modifiers.intersects(Modifier::LINK | Modifier::LINK_URL | Modifier::CODE) {
            push_copy(&mut result, span);
        } else {
            match regex_find_ranges(URL_PATTERN, span.content.as_str()) {
                Some(r) => {
                    if r.len() > 0 {
                        let chars = chars_of(span.content.as_str());
                        match byte_offsets(&chars) {
                            Some(offsets) => {
                                proof {
                                    assert(offsets@[chars@.len() as int] == byte_offset(chars@, chars@.len() as int));
                                }
                                push_url_pieces(&mut result, span, &chars, &offsets, &r);
                            },
                            None => {
                                push_copy(&mut result, span);
                            },
                        }
                    } else {
                        push_copy(&mut result, span);
                    }
                },
                None => {
                    push_copy(&mut result, span);
                },
            }
        }
    }
    result
}


/// The part of a split span: its content, and the start of a source line unless it is the
/// first part.
pub open spec fn split_part(v: SpanView, cur: Seq<char>, first: bool) -> SpanView {
    SpanView {
        content: cur,
        modifiers: if first { v.modifiers } else { Modifier { bits: v.modifiers.bits | Modifier::NEW_LINE } },
        source: v.source,
    }
}

/// Splitting the first `n` characters of span `v` at line feeds: the finished parts, the part
/// being read, and whether no line feed was read yet.
pub open spec fn split_fold(v: SpanView, n: int) -> (Seq<SpanView>, Seq<char>, bool)
    decreases n,
{
    if n <= 0 {
        (Seq::empty(), Seq::empty(), true)
    } else {
        let (out, cur, first) = split_fold(v, n - 1);
        let c = v.content[n - 1];
        if c == '\n' {
            if cur.len() == 0 {
                (out, Seq::empty(), false)
            } else {
                (out.push(split_part(v, cur, first)), Seq::empty(), false)
            }
        } else {
            (out, cur.push(c), first)
        }
    }
}

/// The spans into which span `v` is split at its line feeds: empty parts are dropped, and
/// every part but the first starts a source line. A span with no line feed, or an empty span
/// that starts a source line (a hard line break), is kept as it is.
pub open spec fn split_span(v: SpanView) -> Seq<SpanView> {
    if v.content.len() == 0 && v.modifiers.has(Modifier::NEW_LINE) {
        seq![v]
    } else if !v.content.contains('\n') {
        seq![v]
    } else {
        let (out, cur, first) = split_fold(v, v.content.len() as int);
        if cur.len() > 0 {
            out.push(split_part(v, cur, first))
        } else {
            out
        }
    }
}

/// Newline splitting over the first `n` spans.
pub open spec fn split_newlines_spec(spans: Seq<SpanView>, n: int) -> Seq<SpanView>
    decreases n,
{
    if n <= 0 {
        Seq::empty()
    } else {
        split_newlines_spec(spans, n - 1) + split_span(spans[n - 1])
    }
}

/// Whether the characters of `v` hold a line feed.
fn has_newline(v: &Vec<char>) -> (b: bool)
    ensures
        b == v@.contains('\n'),
{
    for i in 0..v.len()
        invariant
            forall|j: int| 0 <= j < i ==> v@[j] != '\n',
    {
        if v[i] == '\n' {
            return true;
        }
    }
    false
}

/// Push the parts of `span` split at its line feeds.
fn push_split(out: &mut Vec<Span>, span: &Span)
    ensures
        spans_view(final(out)@) == spans_view(old(out)@) + split_span(span@),
{
    let chars = chars_of(span.content.as_str());
    if (chars.len() == 0 && span.modifiers.contains(Modifier::NEW_LINE)) || !has_newline(&chars) {
        push_copy(out, span);
        return;
    }
    let ghost prev = spans_view(out@);
    let mut parts: Vec<Span> = Vec::new();
    let mut cur: Vec<char> = Vec::new();
    let mut first = true;
    for i in 0..chars.len()
        invariant
            chars@ == span@.content,
            split_fold(span@, i as int) == (spans_view(parts@), cur@, first),
    {
        let c = chars[i];
        if c == '\n' {
            if cur.len() > 0 {
                let mods = if first { span.modifiers } else { span.modifiers.union(Modifier::NEW_LINE) };
                let p = Span { content: crate::text::string_of(&cur), modifiers: mods, source_content: crate::span::copy_source(&span.source_content) };
                let ghost pv = parts@;
                parts.push(p);
                proof { lemma_spans_view_push(pv, p); }
            }
            cur = Vec::new();
            first = false;
        } else {
            cur.push(c);
        }
    }
    if cur.len() > 0 {
        let mods = if first { span.modifiers } else { span.modifiers.union(Modifier::NEW_LINE) };
        let p = Span { content: crate::text::string_of(&cur), modifiers: mods, source_content: crate::span::copy_source(&span.source_content) };
        let ghost pv = parts@;
        parts.push(p);
        proof { lemma_spans_view_push(pv, p); }
    }
    let ghost pv = parts@;
    out.append(&mut parts);
    proof { lemma_spans_view_add(old(out)@, pv); }
}

/// Split spans at their line feeds (see [`split_span`]).
pub fn split_newlines(mdspans: Vec<Span>) -> (r: Vec<Span>)
    ensures
        spans_view(r@) == split_newlines_spec(spans_view(mdspans@), mdspans@.len() as int),
{
    let mut result: Vec<Span> = Vec::new();
    for i in 0..mdspans.len()
        invariant
            spans_view(result@) == split_newlines_spec(spans_view(mdspans@), i as int),
    {
        proof { assert(spans_view(mdspans@)[i as int] == mdspans@[i as int]@); }
        push_split(&mut result, &mdspans[i]);
    }
    result
}


/// The text of spans, in order.
pub open spec fn spans_text(s: Seq<SpanView>) -> Seq<char>
    decreases s.len(),
{
    if s.len() == 0 {
        Seq::empty()
    } else {
        spans_text(s.drop_last()) + s.last().content
    }
}

/// `s` without its line feeds.
pub open spec fn without_line_feeds(s: Seq<char>) -> Seq<char>
    decreases s.len(),
{
    if s.len() == 0 {
        s
    } else if s.last() == '\n' {
        without_line_feeds(s.drop_last())
    } else {
        without_line_feeds(s.drop_last()).push(s.last())
    }
}

proof fn lemma_spans_text_add(a: Seq<SpanView>, b: Seq<SpanView>)
    ensures
        spans_text(a + b) == spans_text(a) + spans_text(b),
    decreases b.len(),
{
    if b.len() == 0 {
        assert(a + b =~= a);
    } else {
        lemma_spans_text_add(a, b.drop_last());
        assert((a + b).drop_last() =~= a + b.drop_last());
    }
}

proof fn lemma_without_line_feeds_plain(s: Seq<char>)
    requires
        !s.contains('\n'),
    ensures
        without_line_feeds(s) == s,
    decreases s.len(),
{
    if s.len() > 0 {
        assert(!s.drop_last().contains('\n')) by {
            if s.drop_last().contains('\n') {
                let i = choose|i: int| 0 <= i < s.drop_last().len() && s.drop_last()[i] == '\n';
                assert(s[i] == '\n');
            }
        }
        lemma_without_line_feeds_plain(s.drop_last());
        assert(s.last() != '\n') by {
            assert(s[s.len() - 1] == s.last());
        }
        assert(s.drop_last().push(s.last()) =~= s);
    }
}

proof fn lemma_split_fold(v: SpanView, n: int)
    requires
        0 <= n <= v.content.len(),
    ensures
        ({
            let (out, cur, first) = split_fold(v, n);
            &&& spans_text(out) + cur == without_line_feeds(v.content.take(n))
            &&& !cur.contains('\n')
            &&& forall|k: int| 0 <= k < out.len() ==> !(#[trigger] out[k]).content.contains('\n')
        }),
    decreases n,
{
    if n == 0 {
        assert(v.content.take(0) =~= Seq::<char>::empty());
    } else {
        lemma_split_fold(v, n - 1);
        let (out, cur, first) = split_fold(v, n - 1);
        let c = v.content[n - 1];
        assert(v.content.take(n).drop_last() =~= v.content.take(n - 1));
        assert(v.content.take(n).last() == c);
        if c == '\n' {
            if cur.len() > 0 {
                let p = split_part(v, cur, first);
                assert(out.push(p).drop_last() =~= out);
                assert forall|k: int| 0 <= k < out.push(p).len() implies !(#[trigger] out.push(p)[k]).content.contains('\n') by {
                    if k < out.len() {
                        assert(out.push(p)[k] == out[k]);
                    }
                }
            }
            assert(Seq::<char>::empty().len() == 0);
            assert(spans_text(out) + cur + Seq::<char>::empty() =~= spans_text(out) + cur);
        } else {
            assert(!cur.push(c).contains('\n')) by {
                if cur.push(c).contains('\n') {
                    let i = choose|i: int| 0 <= i < cur.push(c).len() && cur.push(c)[i] == '\n';
                    if i < cur.len() {
                        assert(cur[i] == '\n');
                    }
                }
            }
            assert(spans_text(out) + cur.push(c) =~= (spans_text(out) + cur).push(c));
        }
    }
}

proof fn lemma_spans_text_one(v: SpanView)
    ensures
        spans_text(seq![v]) == v.content,
{
    assert(seq![v].drop_last() =~= Seq::<SpanView>::empty());
    assert(spans_text(Seq::<SpanView>::empty()) == Seq::<char>::empty());
    assert(seq![v].last() == v);
    assert(Seq::<char>::empty() + v.content =~= v.content);
}

proof fn lemma_split_span(v: SpanView)
    ensures
        spans_text(split_span(v)) == without_line_feeds(v.content),
        forall|k: int| 0 <= k < split_span(v).len() ==> !(#[trigger] split_span(v)[k]).content.contains('\n'),
{
    let r = split_span(v);
    if v.content.len() == 0 && v.modifiers.has(Modifier::NEW_LINE) {
        lemma_spans_text_one(v);
        assert(!v.content.contains('\n'));
    } else if !v.content.contains('\n') {
        lemma_spans_text_one(v);
        lemma_without_line_feeds_plain(v.content);
    } else {
        lemma_split_fold(v, v.content.len() as int);
        let (out, cur, first) = split_fold(v, v.content.len() as int);
        assert(v.content.take(v.content.len() as int) =~= v.content);
        if cur.len() > 0 {
            let p = split_part(v, cur, first);
            assert(out.push(p).drop_last() =~= out);
            assert forall|k: int| 0 <= k < out.push(p).len() implies !(#[trigger] out.push(p)[k]).content.contains('\n') by {
                if k < out.len() {
                    assert(out.push(p)[k] == out[k]);
                }
            }
        } else {
            assert(spans_text(out) + cur =~= spans_text(out));
        }
    }
}

/// Splitting spans at their line feeds keeps their text but for the line feeds, in order, and
/// leaves no line feed in any span.
pub proof fn split_newlines_keeps_text(spans: Seq<SpanView>, n: int)
    requires
        0 <= n <= spans.len(),
    ensures
        spans_text(split_newlines_spec(spans, n)) == without_line_feeds(spans_text(spans.take(n))),
        forall|k: int| 0 <= k < split_newlines_spec(spans, n).len()
            ==> !(#[trigger] split_newlines_spec(spans, n)[k]).content.contains('\n'),
    decreases n,
{
    if n == 0 {
        assert(spans.take(0) =~= Seq::<SpanView>::empty());
    } else {
        split_newlines_keeps_text(spans, n - 1);
        lemma_split_span(spans[n - 1]);
        let a = split_newlines_spec(spans, n - 1);
        let b = split_span(spans[n - 1]);
        lemma_spans_text_add(a, b);
        assert(spans.take(n).drop_last() =~= spans.take(n - 1));
        assert(spans.take(n).last() == spans[n - 1]);
        lemma_without_line_feeds_add(spans_text(spans.take(n - 1)), spans[n - 1].content);
        assert forall|k: int| 0 <= k < (a + b).len() implies !(#[trigger] (a + b)[k]).content.contains('\n') by {
            if k < a.len() {
                assert((a + b)[k] == a[k]);
            } else {
                assert((a + b)[k] == b[k - a.len()]);
            }
        }
    }
}

proof fn lemma_without_line_feeds_add(a: Seq<char>, b: Seq<char>)
    ensures
        without_line_feeds(a + b) == without_line_feeds(a) + without_line_feeds(b),
    decreases b.len(),
{
    if b.len() == 0 {
        assert(a + b =~= a);
        assert(without_line_feeds(a) + b =~= without_line_feeds(a));
    } else {
        lemma_without_line_feeds_add(a, b.drop_last());
        assert((a + b).drop_last() =~= a + b.drop_last());
        assert((a + b).last() == b.last());
        if b.last() != '\n' {
            assert(without_line_feeds(a) + without_line_feeds(b.drop_last()).push(b.last())
                =~= (without_line_feeds(a) + without_line_feeds(b.drop_last())).push(b.last()));
        }
    }
}

/// Stripping blockquote markers only removes a start: what is left is an end of the text.
pub proof fn strip_blockquote_prefix_is_suffix(s: Seq<char>, depth: nat)
    ensures
        strip_bq_spec(s, depth).len() <= s.len(),
        strip_bq_spec(s, depth) == s.skip(s.len() - strip_bq_spec(s, depth).len()),
    decreases depth,
{
    if depth == 0 {
        assert(s.skip(0) =~= s);
    } else if s.len() >= 2 && s[0] == '>' && s[1] == ' ' {
        strip_blockquote_prefix_is_suffix(s.skip(2), (depth - 1) as nat);
        let r = strip_bq_spec(s.skip(2), (depth - 1) as nat);
        assert(s.skip(2).skip(s.skip(2).len() - r.len()) =~= s.skip(s.len() - r.len()));
    } else if s.len() >= 1 && s[0] == '>' {
        strip_blockquote_prefix_is_suffix(s.skip(1), (depth - 1) as nat);
        let r = strip_bq_spec(s.skip(1), (depth - 1) as nat);
        assert(s.skip(1).skip(s.skip(1).len() - r.len()) =~= s.skip(s.len() - r.len()));
    } else {
        assert(s.skip(0) =~= s);
    }
}

/// `s` without up to `depth` blockquote markers (`"> "` or `">"`) at its start.
pub open spec fn strip_bq_spec(s: Seq<char>, depth: nat) -> Seq<char>
    decreases depth,
{
    if depth == 0 {
        s
    } else if s.len() >= 2 && s[0] == '>' && s[1] == ' ' {
        strip_bq_spec(s.skip(2), (depth - 1) as nat)
    } else if s.len() >= 1 && s[0] == '>' {
        strip_bq_spec(s.skip(1), (depth - 1) as nat)
    } else {
        s
    }
}

/// Strip up to `depth` blockquote markers from the start of `s`.
pub fn strip_blockquote_prefix(s: &str, depth: usize) -> (r: String)
    ensures
        r@ == strip_bq_spec(s@, depth as nat),
{
    let v = chars_of(s);
    let mut pos: usize = 0;
    let mut k: usize = 0;
    assert(v@.skip(0) =~= v@);
    while k < depth
        invariant
            v@ == s@,
            pos <= v@.len(),
            k <= depth,
            strip_bq_spec(s@, depth as nat) == strip_bq_spec(v@.skip(pos as int), (depth - k) as nat),
        decreases depth - k,
    {
        let ghost rest = v@.skip(pos as int);
        if v.len() - pos >= 2 && v[pos] == '>' && v[pos + 1] == ' ' {
            assert(rest.skip(2) =~= v@.skip(pos + 2));
            pos = pos + 2;
        } else if pos < v.len() && v[pos] == '>' {
            assert(rest.skip(1) =~= v@.skip(pos + 1));
            pos = pos + 1;
        } else {
            let r = string_of_range(&v, pos, v.len());
            assert(v@.subrange(pos as int, v@.len() as int) =~= rest);
            return r;
        }
        k = k + 1;
    }
    let r = string_of_range(&v, pos, v.len());
    assert(v@.subrange(pos as int, v@.len() as int) =~= v@.skip(pos as int));
    r
}

/// Scanning `s` as a run of blockquote markers: `None` if some character is neither a `>`
/// nor one space right after a `>`; otherwise whether some `>` is followed by a space.
pub open spec fn marker_scan(s: Seq<char>) -> Option<bool>
    decreases s.len(),
{
    if s.len() == 0 {
        Some(false)
    } else if s[0] != '>' {
        None
    } else if s.len() >= 2 && s[1] == ' ' {
        match marker_scan(s.skip(2)) {
            Some(_) => Some(true),
            None => None,
        }
    } else {
        marker_scan(s.skip(1))
    }
}

/// Whether `s` is made only of blockquote markers, with at least one `"> "`: a lone `>` or
/// `>>` is more likely part of an angle bracket URL.
pub open spec fn is_marker_only(s: Seq<char>) -> bool {
    s.len() > 0 && marker_scan(s) == Some(true)
}

/// Whether `s` holds nothing but blockquote markers (see [`is_marker_only`]).
pub fn is_blockquote_marker_only(s: &str) -> (b: bool)
    ensures
        b == is_marker_only(s@),
{
    let v = chars_of(s);
    if v.len() == 0 {
        return false;
    }
    let mut pos: usize = 0;
    let mut has_space = false;
    assert(v@.skip(0) =~= v@);
    while pos < v.len()
        invariant
            v@ == s@,
            v@.len() > 0,
            pos <= v@.len(),
            marker_scan(s@) == match marker_scan(v@.skip(pos as int)) {
                Some(h) => Some(h || has_space),
                None => None,
            },
        decreases v.len() - pos,
    {
        let ghost rest = v@.skip(pos as int);
        if v[pos] == '>' {
            if pos + 1 < v.len() && v[pos + 1] == ' ' {
                assert(rest.skip(2) =~= v@.skip(pos + 2));
                pos = pos + 2;
                has_space = true;
            } else {
                assert(rest.skip(1) =~= v@.skip(pos + 1));
                pos = pos + 1;
            }
        } else {
            return false;
        }
    }
    assert(v@.skip(pos as int) =~= Seq::<char>::empty());
    has_space
}

/// ASCII punctuation: the characters of `!"#$%&'()*+,-./:;<=>?@[\]^_`{|}~`.
pub open spec fn is_ascii_punct(c: char) -> bool {
    ('!' <= c && c <= '/') || (':' <= c && c <= '@') || ('[' <= c && c <= '`') || ('{' <= c && c <= '~')
}

/// Whether a node kind is a punctuation token that inline parsing skips. Brackets and
/// parentheses are kept directly inside a link.
pub open spec fn is_punct_kind(kind: Seq<char>, parent: Modifier) -> bool {
    if parent.bits == Modifier::LINK && kind.len() == 1 && (kind[0] == '(' || kind[0] == ')' || kind[0] == '[' || kind[0] == ']') {
        false
    } else {
        kind.len() == 1 && is_ascii_punct(kind[0])
    }
}

/// Whether a node of kind `kind` under a node with modifier `parent_modifier` is punctuation
/// to skip (see [`is_punct_kind`]).
pub fn is_punctuation(kind: &str, parent_modifier: Modifier) -> (b: bool)
    ensures
        b == is_punct_kind(kind@, parent_modifier),
{
    let v = chars_of(kind);
    if v.len() != 1 {
        return false;
    }
    let c = v[0];
    if parent_modifier.bits == Modifier::LINK && (c == '(' || c == ')' || c == '[' || c == ']') {
        return false;
    }
    ('!' <= c && c <= '/') || (':' <= c && c <= '@') || ('[' <= c && c <= '`') || ('{' <= c && c <= '~')
}


/// Marker of a list item as written in the source.
#[derive(Debug, Clone, PartialEq)]
pub struct ListMarker {
    pub original: String,
    pub indent: usize,
    pub task: Option<bool>,
}

pub struct ListMarkerView {
    pub original: Seq<char>,
    pub indent: usize,
    pub task: Option<bool>,
}

impl View for ListMarker {
    type V = ListMarkerView;

    open spec fn view(&self) -> ListMarkerView {
        ListMarkerView { original: self.original@, indent: self.indent, task: self.task }
    }
}

impl ListMarker {
    pub fn new(original: String, indent: usize) -> (m: ListMarker)
        ensures
            m@ == (ListMarkerView { original: original@, indent, task: None }),
    {
        ListMarker { original, indent, task: None }
    }

    pub fn with_task(original: String, indent: usize, task: Option<bool>) -> (m: ListMarker)
        ensures
            m@ == (ListMarkerView { original: original@, indent, task }),
    {
        ListMarker { original, indent, task }
    }

    pub fn copy(&self) -> (m: ListMarker)
        ensures
            m@ == self@,
    {
        ListMarker { original: self.original.clone(), indent: self.indent, task: self.task }
    }
}

/// Marker style for blockquotes.
#[derive(Debug, Default, Clone, PartialEq)]
pub struct BlockquoteMarker;

/// A container in the document structure.
#[derive(Debug, Clone, PartialEq)]
pub enum MdContainer {
    List(ListMarker),
    ListItem(ListMarker),
    Blockquote(BlockquoteMarker),
}

pub enum MdContainerView {
    List(ListMarkerView),
    ListItem(ListMarkerView),
    Blockquote,
}

impl View for MdContainer {
    type V = MdContainerView;

    open spec fn view(&self) -> MdContainerView {
        match self {
            MdContainer::List(m) => MdContainerView::List(m@),
            MdContainer::ListItem(m) => MdContainerView::ListItem(m@),
            MdContainer::Blockquote(_) => MdContainerView::Blockquote,
        }
    }
}

impl MdContainer {
    pub fn copy(&self) -> (c: MdContainer)
        ensures
            c@ == self@,
    {
        match self {
            MdContainer::List(m) => MdContainer::List(m.copy()),
            MdContainer::ListItem(m) => MdContainer::ListItem(m.copy()),
            MdContainer::Blockquote(_) => MdContainer::Blockquote(BlockquoteMarker),
        }
    }
}

pub open spec fn nesting_view(s: Seq<MdContainer>) -> Seq<MdContainerView> {
    s.map_values(|c: MdContainer| c@)
}

/// Column alignment for tables.
#[derive(Debug, Clone, Copy, PartialEq, Eq, Structural)]
pub enum TableAlignment {
    Left,
    Center,
    Right,
}

/// A paragraph: its spans, and the text they were made from.
#[derive(Debug, Clone, PartialEq)]
pub struct MdParagraph {
    pub backing: String,
    pub spans: Vec<Span>,
}

impl MdParagraph {
    pub fn is_empty(&self) -> (b: bool)
        ensures
            b == (self.spans@.len() == 0),
    {
        self.spans.len() == 0
    }

    /// The empty paragraph (a blank line).
    pub fn empty() -> (p: MdParagraph)
        ensures
            p.backing@ == Seq::<char>::empty(),
            p.spans@.len() == 0,
    {
        MdParagraph { backing: String::new(), spans: Vec::new() }
    }

    /// A paragraph of one plain span holding `value`.
    pub fn from_str(value: &str) -> (p: MdParagraph)
        ensures
            p.backing@ == value@,
            spans_view(p.spans@) == seq![plain(value@, Modifier { bits: 0 })],
    {
        let owned = value.to_owned();
        let sp = Span::new(value.to_owned(), Modifier::empty());
        let mut spans: Vec<Span> = Vec::new();
        spans.push(sp);
        assert(spans_view(spans@) =~= seq![sp@]);
        MdParagraph { backing: owned, spans }
    }
}

/// Content of a markdown section.
#[derive(Debug, Clone, PartialEq)]
pub enum MdContent {
    Paragraph(MdParagraph),
    Header { tier: u8, text: String },
    CodeBlock { language: String, code: String },
    HorizontalRule,
    Table { header: Vec<Vec<Span>>, rows: Vec<Vec<Vec<Span>>>, alignments: Vec<TableAlignment> },
}

impl MdContent {
    /// Whether this is a blank line: an empty paragraph.
    pub fn is_blank(&self) -> (b: bool)
        ensures
            b == self@.is_blank_line(),
    {
        match self {
            MdContent::Paragraph(p) => p.is_empty(),
            _ => false,
        }
    }
}

/// The mathematical value of an [`MdContent`].
pub enum MdContentView {
    Paragraph { backing: Seq<char>, spans: Seq<SpanView> },
    Header { tier: u8, text: Seq<char> },
    CodeBlock { language: Seq<char>, code: Seq<char> },
    HorizontalRule,
    Table { header: Seq<Seq<SpanView>>, rows: Seq<Seq<Seq<SpanView>>>, alignments: Seq<TableAlignment> },
}

impl View for MdContent {
    type V = MdContentView;

    open spec fn view(&self) -> MdContentView {
        match self {
            MdContent::Paragraph(p) => MdContentView::Paragraph { backing: p.backing@, spans: spans_view(p.spans@) },
            MdContent::Header { tier, text } => MdContentView::Header { tier: *tier, text: text@ },
            MdContent::CodeBlock { language, code } => MdContentView::CodeBlock { language: language@, code: code@ },
            MdContent::HorizontalRule => MdContentView::HorizontalRule,
            MdContent::Table { header, rows, alignments } => MdContentView::Table {
                header: crate::table::cells_view(header@),
                rows: crate::table::rows_view(rows@),
                alignments: alignments@,
            },
        }
    }
}

impl MdContentView {
    /// A blank line: an empty paragraph.
    pub open spec fn is_blank_line(self) -> bool {
        match self {
            MdContentView::Paragraph { spans, .. } => spans.len() == 0,
            _ => false,
        }
    }
}

/// A markdown section with its content and nesting path.
#[derive(Debug)]
pub struct MdSection {
    pub content: MdContent,
    pub nesting: Vec<MdContainer>,
    /// True if this is a continuation paragraph within a list item (not the first content).
    pub is_list_continuation: bool,
}

/// The mathematical value of an [`MdSection`].
pub struct MdSectionView {
    pub content: MdContentView,
    pub nesting: Seq<MdContainerView>,
    pub is_list_continuation: bool,
}

impl View for MdSection {
    type V = MdSectionView;

    open spec fn view(&self) -> MdSectionView {
        MdSectionView { content: self.content@, nesting: nesting_view(self.nesting@), is_list_continuation: self.is_list_continuation }
    }
}

/// The views of sections.
pub open spec fn sections_view(s: Seq<MdSection>) -> Seq<MdSectionView> {
    s.map_values(|x: MdSection| x@)
}

} // verus!
