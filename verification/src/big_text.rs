//! Big text for headers, with the text sizing protocol of terminals (OSC 66): the text is cut
//! into chunks that fit one scaled cell each.
use vstd::prelude::*;

use crate::lines::{decimal, decimal_string};
use crate::text::{chars_of, repeat_seq};
use crate::width::{char_display_width, char_width};

verus! {

/// The width counted for a character: its display width, one for control characters.
pub open spec fn counted_width(c: char) -> u8 {
    match char_display_width(c) {
        Some(w) => w as u8,
        None => 1,
    }
}

/// The end of the chunk that starts at `start` and has reached `end` with `width` columns:
/// a character wider than one column goes alone into a chunk of its own, other characters
/// join while the chunk stays within `max` columns.
pub open spec fn chunk_end(cs: Seq<char>, max: u8, end: int, width: u8) -> (int, u8)
    decreases cs.len() - end,
{
    if end < 0 || end >= cs.len() {
        (end, width)
    } else {
        let cw = counted_width(cs[end]);
        if cw > 1 {
            if width > 0 { (end, width) } else { (end + 1, cw) }
        } else if width as int + cw as int > max as int {
            (end, width)
        } else {
            chunk_end(cs, max, end + 1, (width + cw) as u8)
        }
    }
}

/// The chunks from position `start` on, each with its width.
pub open spec fn chunks_from(cs: Seq<char>, max: u8, start: int) -> Seq<(Seq<char>, u8)>
    decreases cs.len() - start,
{
    if start < 0 || start >= cs.len() || max == 0 {
        Seq::empty()
    } else {
        let (end, width) = chunk_end(cs, max, start, 0);
        if end <= start || end > cs.len() {
            Seq::empty()
        } else {
            seq![(cs.subrange(start, end), width)] + chunks_from(cs, max, end)
        }
    }
}

proof fn lemma_chunk_end(cs: Seq<char>, max: u8, end: int, width: u8)
    requires
        0 <= end,
        width as int <= max as int || width > 1,
    ensures
        chunk_end(cs, max, end, width).0 >= end,
        chunk_end(cs, max, end, width).0 <= cs.len() || end > cs.len(),
        max > 0 && width == 0 && end < cs.len() ==> chunk_end(cs, max, end, width).0 > end,
    decreases cs.len() - end,
{
    if 0 <= end < cs.len() {
        let cw = counted_width(cs[end]);
        if cw <= 1 && width as int + cw as int <= max as int {
            lemma_chunk_end(cs, max, end + 1, (width + cw) as u8);
        }
    }
}

/// The text of a run of chunks, in order.
pub open spec fn chunks_text(chunks: Seq<(Seq<char>, u8)>) -> Seq<char>
    decreases chunks.len(),
{
    if chunks.len() == 0 {
        Seq::empty()
    } else {
        chunks[0].0 + chunks_text(chunks.drop_first())
    }
}

/// Cutting text into chunks loses and adds nothing: the chunks from `start` on, put back
/// together, are the text from `start` on.
pub proof fn chunks_cover_text(cs: Seq<char>, max: u8, start: int)
    requires
        max > 0,
        0 <= start <= cs.len(),
    ensures
        chunks_text(chunks_from(cs, max, start)) == cs.subrange(start, cs.len() as int),
    decreases cs.len() - start,
{
    if start == cs.len() {
        assert(cs.subrange(start, cs.len() as int) =~= Seq::<char>::empty());
    } else {
        lemma_chunk_end(cs, max, start, 0);
        let (end, width) = chunk_end(cs, max, start, 0);
        chunks_cover_text(cs, max, end);
        let c = chunks_from(cs, max, start);
        assert(c.drop_first() =~= chunks_from(cs, max, end));
        assert(cs.subrange(start, end) + cs.subrange(end, cs.len() as int) =~= cs.subrange(start, cs.len() as int));
    }
}

/// The width counted for a character (see [`counted_width`]).
fn counted_width_exec(c: char) -> (w: u8)
    ensures
        w == counted_width(c),
{
    match char_width(c) {
        Some(w) => w as u8,
        None => 1,
    }
}

/// Cut `chars` into chunks of at most `max_width` columns (see [`chunks_from`]). Wide
/// characters always go into a chunk of their own.
pub fn unicode_chunks(chars: &Vec<char>, max_width: u8) -> (r: Vec<(Vec<char>, u8)>)
    requires
        max_width > 0,
    ensures
        r@.map_values(|p: (Vec<char>, u8)| (p.0@, p.1)) == chunks_from(chars@, max_width, 0),
{
    let mut out: Vec<(Vec<char>, u8)> = Vec::new();
    let mut start: usize = 0;
    let ghost goal = chunks_from(chars@, max_width, 0);
    assert(goal == out@.map_values(|p: (Vec<char>, u8)| (p.0@, p.1)) + chunks_from(chars@, max_width, start as int));
    while start < chars.len()
        invariant
            max_width > 0,
            start <= chars@.len(),
            goal == out@.map_values(|p: (Vec<char>, u8)| (p.0@, p.1)) + chunks_from(chars@, max_width, start as int),
        decreases chars@.len() - start,
    {
        let mut end = start;
        let mut width: u8 = 0;
        proof { lemma_chunk_end(chars@, max_width, start as int, 0); }
        while end < chars.len()
            invariant_except_break
                start <= end <= chars@.len(),
                width as int <= max_width as int || width > 1,
                end == start ==> width == 0,
                chunk_end(chars@, max_width, start as int, 0) == chunk_end(chars@, max_width, end as int, width),
            ensures
                start <= end <= chars@.len(),
                chunk_end(chars@, max_width, start as int, 0) == (end as int, width),
            decreases chars@.len() - end,
        {
            let cw = counted_width_exec(chars[end]);
            if cw > 1 {
                if width > 0 {
                    break;
                }
                width = cw;
                end = end + 1;
                break;
            }
            if (width as u16) + (cw as u16) > (max_width as u16) {
                break;
            }
            width = width + cw;
            end = end + 1;
        }
        proof {
            lemma_chunk_end(chars@, max_width, start as int, 0);
        }
        let mut chunk: Vec<char> = Vec::new();
        let mut k = start;
        while k < end
            invariant
                start <= k <= end <= chars@.len(),
                chunk@ == chars@.subrange(start as int, k as int),
            decreases end - k,
        {
            chunk.push(chars[k]);
            k = k + 1;
        }
        let ghost o = out@;
        out.push((chunk, width));
        proof {
            assert(out@.map_values(|p: (Vec<char>, u8)| (p.0@, p.1)) =~= o.map_values(|p: (Vec<char>, u8)| (p.0@, p.1)).push((chars@.subrange(start as int, end as int), width)));
        }
        start = end;
    }
    assert(chunks_from(chars@, max_width, start as int) =~= Seq::<(Seq<char>, u8)>::empty());
    out
}

/// Text to draw bigger than the surrounding text, at a header tier.
pub struct BigText {
    pub text: String,
    pub tier: u8,
}

/// The scale of a header tier as a fraction: numerator and denominator.
pub open spec fn ratio(tier: u8) -> (u8, u8) {
    if tier == 1 { (7, 7) } else if tier == 2 { (5, 6) } else if tier == 3 { (3, 4) }
    else if tier == 4 { (2, 3) } else if tier == 5 { (3, 5) } else { (1, 3) }
}

/// The escape sequences that first clear the two lines of the area.
pub open spec fn clear_area(w: Seq<char>) -> Seq<char> {
    let erase = seq!['\u{1b}', '['] + w + seq!['X', '\u{1b}', '[', '?', '7', 'l'];
    erase + seq!['\u{1b}', '[', '1', 'B'] + erase + seq!['\u{1b}', '[', '1', 'A']
}

/// The scaled width of a chunk: `n` for a full chunk, else its width scaled and rounded up.
pub open spec fn chunk_scale(width: u8, n: u8, d: u8) -> u8 {
    if width == d { n } else { ((width as int * n as int + d as int - 1) / d as int) as u8 }
}

/// The text sizing sequence of one chunk.
pub open spec fn sized_chunk(chunk: Seq<char>, width: u8, n: u8, d: u8) -> Seq<char> {
    seq!['\u{1b}', ']', '6', '6', ';', 's', '=', '2', ':', 'n', '='] + decimal(n as nat) + seq![':', 'd', '='] + decimal(d as nat)
        + seq![':', 'w', '='] + decimal(chunk_scale(width, n, d) as nat) + seq![';'] + chunk + seq!['\u{1b}', '\\']
}

/// The sequences of the first `k` chunks.
pub open spec fn sized_chunks(chunks: Seq<(Seq<char>, u8)>, n: u8, d: u8, k: int) -> Seq<char>
    decreases k,
{
    if k <= 0 {
        Seq::empty()
    } else {
        sized_chunks(chunks, n, d, k - 1) + sized_chunk(chunks[k - 1].0, chunks[k - 1].1, n, d)
    }
}

/// The sequence that draws `text` at `tier` in an area `area_width` columns wide: clearing
/// the area, then each chunk of at most `d` columns scaled by `n / d`.
pub open spec fn sizing_sequence(text: Seq<char>, tier: u8, area_width: u16) -> Seq<char> {
    let (n, d) = ratio(tier);
    let chunks = chunks_from(text, d, 0);
    clear_area(decimal(area_width as nat)) + sized_chunks(chunks, n, d, chunks.len() as int)
}

impl BigText {
    pub fn new(text: &str, tier: u8) -> (b: BigText)
        ensures
            b.text@ == text@,
            b.tier == tier,
    {
        BigText { text: text.to_owned(), tier }
    }

    /// The scale of a header tier: the final width of wrapped text must be known before it is
    /// drawn.
    pub fn size_ratio(tier: u8) -> (r: (u8, u8))
        ensures
            r == ratio(tier),
    {
        if tier == 1 { (7, 7) } else if tier == 2 { (5, 6) } else if tier == 3 { (3, 4) }
        else if tier == 4 { (2, 3) } else if tier == 5 { (3, 5) } else { (1, 3) }
    }

    /// The sequence that draws this text (see [`sizing_sequence`]).
    #[verifier::rlimit(30)]
    pub fn text_sizing_sequence(&self, area_width: u16) -> (s: String)
        ensures
            s@ == sizing_sequence(self.text@, self.tier, area_width),
    {
        let (n, d) = BigText::size_ratio(self.tier);
        let w = decimal_string(area_width as u32);
        proof {
            reveal_strlit("\u{1b}[");
            reveal_strlit("X\u{1b}[?7l");
            reveal_strlit("\u{1b}[1B");
            reveal_strlit("\u{1b}[1A");
            assert("\u{1b}["@ =~= seq!['\u{1b}', '[']);
            assert("X\u{1b}[?7l"@ =~= seq!['X', '\u{1b}', '[', '?', '7', 'l']);
            assert("\u{1b}[1B"@ =~= seq!['\u{1b}', '[', '1', 'B']);
            assert("\u{1b}[1A"@ =~= seq!['\u{1b}', '[', '1', 'A']);
        }
        let mut symbol = String::new();
        symbol.append("\u{1b}[");
        symbol.append(w.as_str());
        symbol.append("X\u{1b}[?7l");
        symbol.append("\u{1b}[1B");
        symbol.append("\u{1b}[");
        symbol.append(w.as_str());
        symbol.append("X\u{1b}[?7l");
        symbol.append("\u{1b}[1A");
        assert(symbol@ =~= clear_area(decimal(area_width as nat)));
        let chars = chars_of(self.text.as_str());
        let chunks = unicode_chunks(&chars, d);
        let ghost cv = chunks@.map_values(|p: (Vec<char>, u8)| (p.0@, p.1));
        let ns = decimal_string(n as u32);
        let ds = decimal_string(d as u32);
        let ghost head = symbol@;
        for k in 0..chunks.len()
            invariant
                cv == chunks@.map_values(|p: (Vec<char>, u8)| (p.0@, p.1)),
                ns@ == decimal(n as nat),
                ds@ == decimal(d as nat),
                d > 0,
                symbol@ == head + sized_chunks(cv, n, d, k as int),
        {
            proof {
                reveal_strlit("\u{1b}]66;s=2:n=");
                reveal_strlit(":d=");
                reveal_strlit(":w=");
                reveal_strlit(";");
                reveal_strlit("\u{1b}\\");
                assert("\u{1b}]66;s=2:n="@ =~= seq!['\u{1b}', ']', '6', '6', ';', 's', '=', '2', ':', 'n', '=']);
                assert(":d="@ =~= seq![':', 'd', '=']);
                assert(":w="@ =~= seq![':', 'w', '=']);
                assert(";"@ =~= seq![';']);
                assert("\u{1b}\\"@ =~= seq!['\u{1b}', '\\']);
            }
            let chunk_width = chunks[k].1;
            assert((chunk_width as int) * (n as int) <= 255 * 255) by (nonlinear_arith)
                requires
                    chunk_width <= 255,
                    n <= 255;
            let scaled: u8 = if chunk_width == d { n } else { (((chunk_width as u32) * (n as u32) + (d as u32) - 1) / (d as u32)) as u8 };
            let ws = decimal_string(scaled as u32);
            let ghost before = symbol@;
            symbol.append("\u{1b}]66;s=2:n=");
            symbol.append(ns.as_str());
            symbol.append(":d=");
            symbol.append(ds.as_str());
            symbol.append(":w=");
            symbol.append(ws.as_str());
            symbol.append(";");
            let ghost mid = symbol@;
            let piece = &chunks[k].0;
            for j in 0..piece.len()
                invariant
                    symbol@ == mid + piece@.take(j as int),
            {
                symbol.push(piece[j]);
                assert(piece@.take(j + 1) =~= piece@.take(j as int).push(piece@[j as int]));
            }
            symbol.append("\u{1b}\\");
            proof {
                assert(piece@.take(piece@.len() as int) =~= piece@);
                assert(cv[k as int] == (piece@, chunk_width));
                assert(symbol@ =~= before + sized_chunk(piece@, chunk_width, n, d));
            }
        }
        symbol
    }
}

} // verus!
