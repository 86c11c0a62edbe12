//! Searching the rendered lines: the needle is taken literally and without regard to case,
//! and each match is reported by the display columns at which it starts and ends.
use vstd::prelude::*;

use crate::lines::Line;
use crate::markdown::{ranges_ok, spans_text};
use crate::span::spans_view;
use crate::text::{byte_offset, byte_offsets, char_index, chars_of, find_char_index, lemma_char_index, string_of_range};
use crate::width::{display_width, str_width};

verus! {

/// The byte ranges of the successive non-overlapping matches of `needle`, taken literally
/// (`regex::escape`) and case-insensitively, in `text`, or `None` when no regular expression
/// could be built from it.
pub uninterp spec fn regex_literal_ci_matches(needle: Seq<char>, text: Seq<char>) -> Option<Seq<(usize, usize)>>;

/// `regex::RegexBuilder::new(&regex::escape(needle)).case_insensitive(true).build()`, and then
/// `find_iter(text)`, each match as its byte range.
///
/// Trusted: the ranges are the named result; the regex documentation states that
/// `find_iter` yields successive non-overlapping matches, from left to right, and that match
/// offsets of a `&str` search always fall on UTF-8 character boundaries.
#[verifier::external_body]
fn find_literal_ci(needle: &str, text: &str) -> (r: Option<Vec<(usize, usize)>>)
    ensures
        match r {
            Some(v) => regex_literal_ci_matches(needle@, text@) == Some(v@) && ranges_ok(text@, v@),
            None => regex_literal_ci_matches(needle@, text@) is None,
        },
{
    match regex::RegexBuilder::new(&regex::escape(needle)).case_insensitive(true).build() {
        Ok(re) => Some(re.find_iter(text).map(|m| (m.start(), m.end())).collect()),
        Err(_) => None,
    }
}

/// The display column of byte offset `b` of `text`: the width of the text before it.
pub open spec fn column(text: Seq<char>, b: usize) -> usize {
    display_width(text.take(char_index(text, b as int)))
}

/// A match at byte range `m` of `text`: its start and end columns and the matched text.
pub open spec fn match_mark(text: Seq<char>, m: (usize, usize)) -> (usize, usize, Seq<char>) {
    (column(text, m.0), column(text, m.1), text.subrange(char_index(text, m.0 as int), char_index(text, m.1 as int)))
}

/// The search matches of `needle` in `text`, in order: none without a needle, when no
/// regular expression could be built from it, or when the text's bytes do not fit in
/// `usize`.
pub open spec fn search_columns(text: Seq<char>, needle: Option<Seq<char>>) -> Seq<(usize, usize, Seq<char>)> {
    match needle {
        None => Seq::empty(),
        Some(n) => match regex_literal_ci_matches(n, text) {
            Some(r) => if byte_offset(text, text.len() as int) <= usize::MAX {
                r.map_values(|m: (usize, usize)| match_mark(text, m))
            } else {
                Seq::empty()
            },
            None => Seq::empty(),
        },
    }
}

/// The view of found matches.
pub open spec fn found_view(v: Seq<(usize, usize, String)>) -> Seq<(usize, usize, Seq<char>)> {
    v.map_values(|m: (usize, usize, String)| (m.0, m.1, m.2@))
}

/// The view of an optional needle.
pub open spec fn needle_view(needle: Option<&str>) -> Option<Seq<char>> {
    match needle {
        Some(n) => Some(n@),
        None => None,
    }
}

/// The text of a line: its spans' contents, in order.
pub fn line_string(line: &Line) -> (s: String)
    ensures
        s@ == spans_text(line@.spans),
{
    let mut s = String::new();
    let ghost all = spans_view(line.spans@);
    for i in 0..line.spans.len()
        invariant
            all == spans_view(line.spans@),
            all == line@.spans,
            s@ == spans_text(all.take(i as int)),
    {
        proof {
            assert(all.take(i + 1).drop_last() =~= all.take(i as int));
            assert(all.take(i + 1).last() == line.spans@[i as int]@);
        }
        s.append(line.spans[i].content.as_str());
    }
    assert(all.take(all.len() as int) =~= all);
    s
}

/// The matches of `needle` in `text` (see [`search_columns`]).
pub fn search_text(text: &str, needle: Option<&str>) -> (r: Vec<(usize, usize, String)>)
    ensures
        found_view(r@) == search_columns(text@, needle_view(needle)),
{
    let none: Vec<(usize, usize, String)> = Vec::new();
    assert(found_view(none@) =~= Seq::<(usize, usize, Seq<char>)>::empty());
    let n = match needle {
        Some(n) => n,
        None => {
            return none;
        },
    };
    let ranges = match find_literal_ci(n, text) {
        Some(v) => v,
        None => {
            return none;
        },
    };
    let chars = chars_of(text);
    let offsets = match byte_offsets(&chars) {
        Some(o) => o,
        None => {
            return none;
        },
    };
    let ghost goal = ranges@.map_values(|m: (usize, usize)| match_mark(text@, m));
    let mut out: Vec<(usize, usize, String)> = Vec::new();
    for k in 0..ranges.len()
        invariant
            chars@ == text@,
            offsets@.len() == chars@.len() + 1,
            forall|j: int| 0 <= j <= chars@.len() ==> #[trigger] offsets@[j] == byte_offset(chars@, j),
            ranges_ok(text@, ranges@),
            goal == ranges@.map_values(|m: (usize, usize)| match_mark(text@, m)),
            found_view(out@) == goal.take(k as int),
    {
        let (bs, be) = ranges[k];
        proof {
            let p = ranges@[k as int];
            assert(p.0 <= p.1 && crate::text::is_boundary(text@, p.0 as int) && crate::text::is_boundary(text@, p.1 as int));
            lemma_char_index(chars@, bs as int);
            lemma_char_index(chars@, be as int);
            if char_index(chars@, be as int) < char_index(chars@, bs as int) {
                crate::text::lemma_byte_offset_mono(chars@, char_index(chars@, be as int) + 1, char_index(chars@, bs as int));
            }
        }
        let s = find_char_index(&offsets, &chars, bs);
        let e = find_char_index(&offsets, &chars, be);
        let before = string_of_range(&chars, 0, s);
        let upto = string_of_range(&chars, 0, e);
        let found = string_of_range(&chars, s, e);
        let start = str_width(before.as_str());
        let end = str_width(upto.as_str());
        let ghost prev = out@;
        out.push((start, end, found));
        proof {
            assert(text@.take(s as int) =~= chars@.subrange(0, s as int));
            assert(text@.take(e as int) =~= chars@.subrange(0, e as int));
            assert(goal[k as int] == match_mark(text@, ranges@[k as int]));
            assert(found_view(out@) =~= found_view(prev).push((start, end, found@)));
            assert(goal.take(k + 1) =~= goal.take(k as int).push(goal[k as int]));
        }
    }
    assert(goal.take(ranges@.len() as int) =~= goal);
    assert(offsets@[chars@.len() as int] == byte_offset(chars@, chars@.len() as int));
    assert(needle_view(needle) == Some(n@));
    out
}

/// The search matches of each line (see [`search_columns`]): the line's text is searched for
/// the needle, taken literally and without regard to case.
pub fn search_marks(lines: &Vec<Line>, needle: Option<&str>) -> (r: Vec<Vec<(usize, usize, String)>>)
    ensures
        r@.len() == lines@.len(),
        forall|i: int| 0 <= i < r@.len() ==> found_view(#[trigger] r@[i]@) == search_columns(spans_text(lines@[i]@.spans), needle_view(needle)),
{
    let mut out: Vec<Vec<(usize, usize, String)>> = Vec::new();
    for i in 0..lines.len()
        invariant
            out@.len() == i,
            forall|j: int| 0 <= j < i ==> found_view(#[trigger] out@[j]@) == search_columns(spans_text(lines@[j]@.spans), needle_view(needle)),
    {
        let text = line_string(&lines[i]);
        let found = search_text(text.as_str(), needle);
        out.push(found);
    }
    out
}

} // verus!
