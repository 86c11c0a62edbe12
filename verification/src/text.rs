//! Character-level text helpers: Unicode whitespace, trimming, and conversions
//! between `String` and sequences of `char`.
use vstd::prelude::*;

verus! {

/// The Unicode `White_Space` property, which is what `char::is_whitespace`
/// and the `trim` family of `str` methods use.
pub open spec fn is_ws(c: char) -> bool {
    ||| ('\u{9}' <= c && c <= '\u{d}')
    ||| c == ' '
    ||| c == '\u{85}'
    ||| c == '\u{a0}'
    ||| c == '\u{1680}'
    ||| ('\u{2000}' <= c && c <= '\u{200a}')
    ||| c == '\u{2028}'
    ||| c == '\u{2029}'
    ||| c == '\u{202f}'
    ||| c == '\u{205f}'
    ||| c == '\u{3000}'
}

/// `s` without its leading whitespace.
pub open spec fn trim_start_seq(s: Seq<char>) -> Seq<char>
    decreases s.len(),
{
    if s.len() > 0 && is_ws(s[0]) {
        trim_start_seq(s.drop_first())
    } else {
        s
    }
}

/// `s` without its trailing whitespace.
pub open spec fn trim_end_seq(s: Seq<char>) -> Seq<char>
    decreases s.len(),
{
    if s.len() > 0 && is_ws(s.last()) {
        trim_end_seq(s.drop_last())
    } else {
        s
    }
}

/// `s` without leading and trailing whitespace.
pub open spec fn trim_seq(s: Seq<char>) -> Seq<char> {
    trim_end_seq(trim_start_seq(s))
}

/// True when every character of `s` is whitespace (so also for the empty sequence).
pub open spec fn all_ws(s: Seq<char>) -> bool {
    forall|i: int| 0 <= i < s.len() ==> is_ws(#[trigger] s[i])
}

/// Whether `c` is Unicode whitespace, as `char::is_whitespace` decides it.
pub fn is_whitespace(c: char) -> (b: bool)
    ensures
        b == is_ws(c),
{
    ('\u{9}' <= c && c <= '\u{d}') || c == ' ' || c == '\u{85}' || c == '\u{a0}' || c
        == '\u{1680}' || ('\u{2000}' <= c && c <= '\u{200a}') || c == '\u{2028}' || c
        == '\u{2029}' || c == '\u{202f}' || c == '\u{205f}' || c == '\u{3000}'
}

pub assume_specification[ String::push ](string: &mut String, ch: char)
    ensures
        final(string)@ == old(string)@.push(ch),
;

/// The characters of `s`, in order.
pub fn chars_of(s: &str) -> (v: Vec<char>)
    ensures
        v@ == s@,
{
    let mut v: Vec<char> = Vec::new();
    for c in it: s.chars()
        invariant
            v@ == it.seq().take(it.index() as int),
            it.seq() == s@,
    {
        v.push(c);
    }
    v
}


/// A `String` holding `v[from..to]`.
pub fn string_of_range(v: &Vec<char>, from: usize, to: usize) -> (s: String)
    requires
        from <= to <= v.len(),
    ensures
        s@ == v@.subrange(from as int, to as int),
{
    let mut s = String::new();
    let mut i = from;
    while i < to
        invariant
            from <= i <= to <= v.len(),
            s@ == v@.subrange(from as int, i as int),
        decreases to - i,
    {
        s.push(v[i]);
        i = i + 1;
    }
    s
}

/// A `String` holding all of `v`.
pub fn string_of(v: &Vec<char>) -> (s: String)
    ensures
        s@ == v@,
{
    let s = string_of_range(v, 0, v.len());
    assert(v@.subrange(0, v@.len() as int) == v@);
    s
}

/// Index of the first non-whitespace character of `s`, or `s.len()`.
pub open spec fn first_non_ws(s: Seq<char>) -> int
    decreases s.len(),
{
    if s.len() > 0 && is_ws(s[0]) {
        1 + first_non_ws(s.drop_first())
    } else {
        0
    }
}

/// One past the index of the last non-whitespace character of `s`, or 0.
pub open spec fn last_non_ws_end(s: Seq<char>) -> int
    decreases s.len(),
{
    if s.len() > 0 && is_ws(s.last()) {
        last_non_ws_end(s.drop_last())
    } else {
        s.len() as int
    }
}

pub proof fn lemma_first_non_ws(s: Seq<char>)
    ensures
        0 <= first_non_ws(s) <= s.len(),
        trim_start_seq(s) == s.skip(first_non_ws(s)),
        forall|i: int| 0 <= i < first_non_ws(s) ==> is_ws(#[trigger] s[i]),
        first_non_ws(s) < s.len() ==> !is_ws(s[first_non_ws(s)]),
    decreases s.len(),
{
    if s.len() > 0 && is_ws(s[0]) {
        lemma_first_non_ws(s.drop_first());
        assert(s.drop_first().skip(first_non_ws(s.drop_first())) == s.skip(first_non_ws(s)));
        assert forall|i: int| 0 <= i < first_non_ws(s) implies is_ws(#[trigger] s[i]) by {
            if i > 0 {
                assert(s[i] == s.drop_first()[i - 1]);
            }
        }
    } else {
        assert(s.skip(0) == s);
    }
}

pub proof fn lemma_last_non_ws_end(s: Seq<char>)
    ensures
        0 <= last_non_ws_end(s) <= s.len(),
        trim_end_seq(s) == s.take(last_non_ws_end(s)),
        forall|i: int| last_non_ws_end(s) <= i < s.len() ==> is_ws(#[trigger] s[i]),
        last_non_ws_end(s) > 0 ==> !is_ws(s[last_non_ws_end(s) - 1]),
    decreases s.len(),
{
    if s.len() > 0 && is_ws(s.last()) {
        lemma_last_non_ws_end(s.drop_last());
        assert(s.drop_last().take(last_non_ws_end(s.drop_last())) == s.take(last_non_ws_end(s)));
        assert forall|i: int| last_non_ws_end(s) <= i < s.len() implies is_ws(#[trigger] s[i]) by {
            if i < s.len() - 1 {
                assert(s[i] == s.drop_last()[i]);
            }
        }
    } else {
        assert(s.take(s.len() as int) == s);
    }
}

/// Position of the first non-whitespace character of `v`.
pub fn first_non_ws_index(v: &Vec<char>) -> (i: usize)
    ensures
        i == first_non_ws(v@),
{
    proof { lemma_first_non_ws(v@); }
    let mut i: usize = 0;
    while i < v.len() && is_whitespace(v[i])
        invariant
            i <= v.len(),
            forall|j: int| 0 <= j < i ==> is_ws(#[trigger] v@[j]),
            i <= first_non_ws(v@),
            0 <= first_non_ws(v@) <= v@.len(),
            forall|j: int| 0 <= j < first_non_ws(v@) ==> is_ws(#[trigger] v@[j]),
            first_non_ws(v@) < v@.len() ==> !is_ws(v@[first_non_ws(v@)]),
        decreases v.len() - i,
    {
        i = i + 1;
    }
    i
}

/// Whether `s` is empty once trimmed, that is, all whitespace.
pub fn is_blank_str(s: &str) -> (b: bool)
    ensures
        b == all_ws(s@),
{
    let mut it = s.chars();
    for c in iter: it
        invariant
            iter.seq() == s@,
            forall|j: int| 0 <= j < iter.index() ==> is_ws(#[trigger] s@[j]),
    {
        if !is_whitespace(c) {
            return false;
        }
    }
    true
}

/// One past the position of the last non-whitespace character of `v`.
pub fn last_non_ws_end_index(v: &Vec<char>) -> (i: usize)
    ensures
        i == last_non_ws_end(v@),
{
    proof { lemma_last_non_ws_end(v@); }
    let mut i: usize = v.len();
    while i > 0 && is_whitespace(v[i - 1])
        invariant
            i <= v.len(),
            last_non_ws_end(v@) <= i,
            0 <= last_non_ws_end(v@) <= v@.len(),
            forall|j: int| last_non_ws_end(v@) <= j < v@.len() ==> is_ws(#[trigger] v@[j]),
            last_non_ws_end(v@) > 0 ==> !is_ws(v@[last_non_ws_end(v@) - 1]),
        decreases i,
    {
        i = i - 1;
    }
    i
}

/// Remove leading whitespace from `s`.
pub fn trim_start_inplace(s: &mut String)
    ensures
        final(s)@ == trim_start_seq(old(s)@),
{
    let v = chars_of(s.as_str());
    let start = first_non_ws_index(&v);
    proof { lemma_first_non_ws(v@); }
    if start > 0 {
        *s = string_of_range(&v, start, v.len());
    }
    proof {
        lemma_first_non_ws(v@);
        assert(v@.skip(0) == v@);
    }
}

/// Remove trailing whitespace from `s`.
pub fn trim_end_inplace(s: &mut String)
    ensures
        final(s)@ == trim_end_seq(old(s)@),
{
    let v = chars_of(s.as_str());
    let end = last_non_ws_end_index(&v);
    proof { lemma_last_non_ws_end(v@); }
    if end < v.len() {
        *s = string_of_range(&v, 0, end);
    }
    proof {
        lemma_last_non_ws_end(v@);
        assert(v@.take(v@.len() as int) == v@);
    }
}

/// Remove leading and trailing whitespace from `s`.
pub fn trim_inplace(s: &mut String)
    ensures
        final(s)@ == trim_seq(old(s)@),
{
    trim_start_inplace(s);
    trim_end_inplace(s);
}


/// Length of the run of non-whitespace characters that starts `s`.
pub open spec fn word_len(s: Seq<char>) -> int
    decreases s.len(),
{
    if s.len() > 0 && !is_ws(s[0]) {
        1 + word_len(s.drop_first())
    } else {
        0
    }
}

pub proof fn lemma_word_len(s: Seq<char>)
    ensures
        0 <= word_len(s) <= s.len(),
        forall|i: int| 0 <= i < word_len(s) ==> !is_ws(#[trigger] s[i]),
        word_len(s) < s.len() ==> is_ws(s[word_len(s)]),
    decreases s.len(),
{
    if s.len() > 0 && !is_ws(s[0]) {
        lemma_word_len(s.drop_first());
        assert forall|i: int| 0 <= i < word_len(s) implies !is_ws(#[trigger] s[i]) by {
            if i > 0 {
                assert(s[i] == s.drop_first()[i - 1]);
            }
        }
    }
}

/// The first whitespace-separated word of `s`, as `str::split_whitespace` yields it first.
pub open spec fn first_word(s: Seq<char>) -> Option<Seq<char>> {
    let t = trim_start_seq(s);
    if t.len() == 0 {
        None
    } else {
        Some(t.take(word_len(t)))
    }
}

/// The position just after the run of non-whitespace characters of `v` that starts at `from`.
pub fn word_end_index(v: &Vec<char>, from: usize) -> (i: usize)
    requires
        from <= v.len(),
    ensures
        i == from + word_len(v@.skip(from as int)),
{
    proof { lemma_word_len(v@.skip(from as int)); }
    let mut i: usize = from;
    while i < v.len() && !is_whitespace(v[i])
        invariant
            from <= i <= v.len(),
            i - from <= word_len(v@.skip(from as int)),
            0 <= word_len(v@.skip(from as int)) <= v@.len() - from,
            forall|j: int| 0 <= j < word_len(v@.skip(from as int)) ==> !is_ws(#[trigger] v@.skip(from as int)[j]),
            word_len(v@.skip(from as int)) < v@.len() - from ==> is_ws(v@.skip(from as int)[word_len(v@.skip(from as int))]),
        decreases v.len() - i,
    {
        assert(v@.skip(from as int)[i - from] == v@[i as int]);
        i = i + 1;
    }
    if i < v.len() {
        assert(v@.skip(from as int)[i - from] == v@[i as int]);
    }
    i
}

/// The characters of the first whitespace-separated word of `v`, if any.
pub fn first_word_of(v: &Vec<char>) -> (w: Option<String>)
    ensures
        match w {
            Some(s) => first_word(v@) == Some(s@),
            None => first_word(v@) is None,
        },
{
    let start = first_non_ws_index(v);
    proof { lemma_first_non_ws(v@); }
    if start == v.len() {
        return None;
    }
    let end = word_end_index(v, start);
    proof {
        lemma_word_len(v@.skip(start as int));
        assert(v@.subrange(start as int, end as int) == v@.skip(start as int).take(end - start));
    }
    Some(string_of_range(v, start, end))
}


/// `s` repeated `n` times.
pub open spec fn repeat_seq(s: Seq<char>, n: nat) -> Seq<char>
    decreases n,
{
    if n == 0 {
        Seq::empty()
    } else {
        repeat_seq(s, (n - 1) as nat) + s
    }
}

/// `s` repeated `n` times, as `str::repeat` builds it.
pub fn repeat_str(s: &str, n: usize) -> (r: String)
    ensures
        r@ == repeat_seq(s@, n as nat),
{
    let mut r = String::new();
    let mut i: usize = 0;
    while i < n
        invariant
            i <= n,
            r@ == repeat_seq(s@, i as nat),
        decreases n - i,
    {
        r.append(s);
        i = i + 1;
    }
    r
}


/// The number of bytes of the UTF-8 encoding of `c` (`char::len_utf8`).
pub open spec fn utf8_len(c: char) -> int {
    if (c as u32) < 0x80 {
        1
    } else if (c as u32) < 0x800 {
        2
    } else if (c as u32) < 0x10000 {
        3
    } else {
        4
    }
}

/// The byte offset of the `i`-th character of `s` in its UTF-8 encoding.
pub open spec fn byte_offset(s: Seq<char>, i: int) -> int
    decreases i,
{
    if i <= 0 {
        0
    } else {
        byte_offset(s, i - 1) + utf8_len(s[i - 1])
    }
}

/// `b` is the byte offset of a character boundary of `s` (its end included).
pub open spec fn is_boundary(s: Seq<char>, b: int) -> bool {
    exists|i: int| 0 <= i <= s.len() && #[trigger] byte_offset(s, i) == b
}

/// The character index whose byte offset in `s` is `b`.
pub open spec fn char_index(s: Seq<char>, b: int) -> int {
    choose|i: int| 0 <= i <= s.len() && #[trigger] byte_offset(s, i) == b
}

pub proof fn lemma_byte_offset_mono(s: Seq<char>, i: int, j: int)
    requires
        0 <= i <= j,
    ensures
        byte_offset(s, i) + (j - i) <= byte_offset(s, j),
    decreases j - i,
{
    if i < j {
        lemma_byte_offset_mono(s, i, j - 1);
    }
}

pub proof fn lemma_char_index(s: Seq<char>, b: int)
    requires
        is_boundary(s, b),
    ensures
        0 <= char_index(s, b) <= s.len(),
        byte_offset(s, char_index(s, b)) == b,
        forall|i: int| 0 <= i <= s.len() && #[trigger] byte_offset(s, i) == b ==> i == char_index(s, b),
{
    let k = char_index(s, b);
    assert forall|i: int| 0 <= i <= s.len() && #[trigger] byte_offset(s, i) == b implies i == k by {
        if i < k {
            lemma_byte_offset_mono(s, i + 1, k);
        } else if k < i {
            lemma_byte_offset_mono(s, k + 1, i);
        }
    }
}

/// The number of UTF-8 bytes of `c`.
pub fn char_len_utf8(c: char) -> (n: usize)
    ensures
        n == utf8_len(c),
{
    let u = c as u32;
    if u < 0x80 {
        1
    } else if u < 0x800 {
        2
    } else if u < 0x10000 {
        3
    } else {
        4
    }
}

/// The byte offsets of the characters of `v` and of its end, if they fit in `usize`.
pub fn byte_offsets(v: &Vec<char>) -> (r: Option<Vec<usize>>)
    ensures
        match r {
            Some(o) => o@.len() == v@.len() + 1 && forall|i: int| 0 <= i <= v@.len() ==> #[trigger] o@[i] == byte_offset(v@, i),
            None => byte_offset(v@, v@.len() as int) > usize::MAX,
        },
{
    let mut o: Vec<usize> = Vec::new();
    o.push(0);
    let mut acc: usize = 0;
    for i in 0..v.len()
        invariant
            o@.len() == i + 1,
            acc == byte_offset(v@, i as int),
            forall|k: int| 0 <= k <= i ==> #[trigger] o@[k] == byte_offset(v@, k),
    {
        let l = char_len_utf8(v[i]);
        if acc > usize::MAX - l {
            proof {
                lemma_byte_offset_mono(v@, i + 1, v@.len() as int);
            }
            return None;
        }
        acc = acc + l;
        o.push(acc);
    }
    Some(o)
}

/// The character index in `v` whose byte offset (as listed in `offsets`) is `b`.
pub fn find_char_index(offsets: &Vec<usize>, v: &Vec<char>, b: usize) -> (i: usize)
    requires
        offsets@.len() == v@.len() + 1,
        forall|k: int| 0 <= k <= v@.len() ==> #[trigger] offsets@[k] == byte_offset(v@, k),
        is_boundary(v@, b as int),
    ensures
        i == char_index(v@, b as int),
{
    proof { lemma_char_index(v@, b as int); }
    let mut i: usize = 0;
    while i < v.len() && offsets[i] != b
        invariant
            0 <= i <= v@.len(),
            i <= char_index(v@, b as int),
            offsets@.len() == v@.len() + 1,
            forall|k: int| 0 <= k <= v@.len() ==> #[trigger] offsets@[k] == byte_offset(v@, k),
            0 <= char_index(v@, b as int) <= v@.len(),
            byte_offset(v@, char_index(v@, b as int)) == b,
            forall|k: int| 0 <= k <= v@.len() && #[trigger] byte_offset(v@, k) == b ==> k == char_index(v@, b as int),
        decreases v.len() - i,
    {
        assert(offsets@[i as int] == byte_offset(v@, i as int));
        i = i + 1;
    }
    assert(offsets@[i as int] == byte_offset(v@, i as int));
    i
}


/// Splitting the first `n` characters of `s` into lines: the finished lines, and the line
/// being read. A line feed ends a line, and a carriage return right before it is dropped.
pub open spec fn lines_fold(s: Seq<char>, n: int) -> (Seq<Seq<char>>, Seq<char>)
    decreases n,
{
    if n <= 0 {
        (Seq::empty(), Seq::empty())
    } else {
        let (done, cur) = lines_fold(s, n - 1);
        if s[n - 1] == '\n' {
            let line = if cur.len() > 0 && cur.last() == '\r' { cur.drop_last() } else { cur };
            (done.push(line), Seq::empty())
        } else {
            (done, cur.push(s[n - 1]))
        }
    }
}

/// The lines of `s`, as `str::lines` yields them: split at `\n` or `\r\n`, with no empty last
/// line after a final line ending.
pub open spec fn text_lines(s: Seq<char>) -> Seq<Seq<char>> {
    let (done, cur) = lines_fold(s, s.len() as int);
    if cur.len() > 0 {
        done.push(cur)
    } else {
        done
    }
}

/// The lines of `s` (see [`text_lines`]).
pub fn split_lines(s: &str) -> (r: Vec<String>)
    ensures
        r@.map_values(|l: String| l@) == text_lines(s@),
{
    let v = chars_of(s);
    let mut done: Vec<String> = Vec::new();
    let mut cur: Vec<char> = Vec::new();
    for i in 0..v.len()
        invariant
            v@ == s@,
            lines_fold(s@, i as int) == (done@.map_values(|l: String| l@), cur@),
    {
        if v[i] == '\n' {
            let n = cur.len();
            let line = if n > 0 && cur[n - 1] == '\r' {
                string_of_range(&cur, 0, n - 1)
            } else {
                string_of(&cur)
            };
            proof {
                if n > 0 && cur@[n - 1] == '\r' {
                    assert(cur@.subrange(0, n - 1) =~= cur@.drop_last());
                }
            }
            let ghost d = done@;
            done.push(line);
            proof {
                assert(done@.map_values(|l: String| l@) =~= d.map_values(|l: String| l@).push(line@));
            }
            cur = Vec::new();
        } else {
            cur.push(v[i]);
        }
    }
    if cur.len() > 0 {
        let line = string_of(&cur);
        let ghost d = done@;
        done.push(line);
        proof {
            assert(done@.map_values(|l: String| l@) =~= d.map_values(|l: String| l@).push(line@));
        }
    }
    done
}

} // verus!
