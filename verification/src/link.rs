//! Links drawn two characters per terminal cell, so that the OSC 8 sequences that open and
//! close the link ride along with the first and last cells.
use vstd::prelude::*;

use crate::text::chars_of;

verus! {

/// A piece of a link's text and the cell it goes to.
#[derive(Debug, Clone, Copy, PartialEq, Eq, Structural)]
pub enum Chunk {
    /// The first two characters, at the first cell.
    First(char, char),
    /// Two characters at the given offset.
    Middle(u16, char, char),
    /// One character alone at the given offset (an odd middle).
    MiddleSquezed(u16, char),
    /// The last two characters at the given offset.
    Last(u16, char, char),
}

/// The chunk that starts at character `i` of `cs`, if one does: the first pair, the last
/// pair, and the pairs of the middle, whose last character stands alone when the middle has
/// an odd length. Texts shorter than two characters have no chunks.
pub open spec fn chunk_at(cs: Seq<char>, i: int) -> Option<Chunk> {
    let len = cs.len() as int;
    if len < 2 {
        None
    } else if i == 0 {
        Some(Chunk::First(cs[0], cs[1]))
    } else if i == len - 2 {
        Some(Chunk::Last(i as u16, cs[i], cs[i + 1]))
    } else if 2 <= i && i < len - 2 {
        let middle_len = len - 4;
        let pos = i - 2;
        if middle_len % 2 == 1 && pos == middle_len - 1 {
            Some(Chunk::MiddleSquezed(i as u16, cs[i]))
        } else if pos % 2 == 0 {
            Some(Chunk::Middle(i as u16, cs[i], cs[i + 1]))
        } else {
            None
        }
    } else {
        None
    }
}

/// The chunks that start among the first `n` characters, in order.
pub open spec fn chunks_upto(cs: Seq<char>, n: int) -> Seq<Chunk>
    decreases n,
{
    if n <= 0 {
        Seq::empty()
    } else {
        chunks_upto(cs, n - 1) + match chunk_at(cs, n - 1) {
            Some(c) => seq![c],
            None => Seq::<Chunk>::empty(),
        }
    }
}

proof fn lemma_chunks_first(cs: Seq<char>, n: int)
    requires
        cs.len() >= 2,
        1 <= n,
    ensures
        chunks_upto(cs, n).len() > 0,
        chunks_upto(cs, n)[0] == Chunk::First(cs[0], cs[1]),
    decreases n,
{
    if n == 1 {
        assert(chunks_upto(cs, 0) =~= Seq::<Chunk>::empty());
        assert(chunks_upto(cs, 1) =~= seq![Chunk::First(cs[0], cs[1])]);
    } else {
        lemma_chunks_first(cs, n - 1);
        let prev = chunks_upto(cs, n - 1);
        let tail = match chunk_at(cs, n - 1) {
            Some(c) => seq![c],
            None => Seq::<Chunk>::empty(),
        };
        assert((prev + tail)[0] == prev[0]);
    }
}

/// A link of three characters or more starts with the chunk of its first pair, at the first
/// cell, and ends with the chunk of its last pair.
pub proof fn link_chunks_start_and_end(cs: Seq<char>)
    requires
        cs.len() >= 3,
    ensures
        ({
            let c = chunks_upto(cs, cs.len() as int);
            &&& c.len() > 0
            &&& c[0] == Chunk::First(cs[0], cs[1])
            &&& c.last() == Chunk::Last((cs.len() - 2) as u16, cs[cs.len() - 2], cs[cs.len() - 1])
        }),
{
    let len = cs.len() as int;
    lemma_chunks_first(cs, len);
    assert(chunk_at(cs, len - 1) is None);
    assert(chunk_at(cs, len - 2) == Some(Chunk::Last((len - 2) as u16, cs[len - 2], cs[len - 1])));
    assert(chunks_upto(cs, len) =~= chunks_upto(cs, len - 1));
    assert(chunks_upto(cs, len - 1) =~= chunks_upto(cs, len - 2).push(Chunk::Last((len - 2) as u16, cs[len - 2], cs[len - 1])));
}

/// The chunks of a link's text (see [`chunk_at`]).
pub fn pairs_and_chunks(text: &str) -> (r: Vec<Chunk>)
    ensures
        r@ == chunks_upto(text@, text@.len() as int),
{
    let chars = chars_of(text);
    let len = chars.len();
    let mut out: Vec<Chunk> = Vec::new();
    for i in 0..len
        invariant
            len == chars@.len(),
            chars@ == text@,
            out@ == chunks_upto(text@, i as int),
    {
        let c: Option<Chunk> = if len < 2 {
            None
        } else if i == 0 {
            Some(Chunk::First(chars[0], chars[1]))
        } else if i == len - 2 {
            Some(Chunk::Last(i as u16, chars[i], chars[i + 1]))
        } else if 2 <= i && i < len - 2 {
            let middle_len = len - 4;
            let pos = i - 2;
            if middle_len % 2 == 1 && pos == middle_len - 1 {
                Some(Chunk::MiddleSquezed(i as u16, chars[i]))
            } else if pos % 2 == 0 {
                Some(Chunk::Middle(i as u16, chars[i], chars[i + 1]))
            } else {
                None
            }
        } else {
            None
        };
        assert(c == chunk_at(text@, i as int));
        match c {
            Some(ch) => {
                out.push(ch);
            },
            None => {},
        }
        assert(out@ =~= chunks_upto(text@, i + 1));
    }
    out
}

/// What a link puts into a cell at an offset from its first cell: a symbol, or a skip (the
/// cell is covered by the symbol before it).
#[derive(Debug, Clone, PartialEq, Eq)]
pub enum LinkCell {
    Symbol(u16, String),
    Skip(u16),
}

/// The mathematical value of a [`LinkCell`].
pub enum LinkCellView {
    Symbol(u16, Seq<char>),
    Skip(u16),
}

impl View for LinkCell {
    type V = LinkCellView;

    open spec fn view(&self) -> LinkCellView {
        match self {
            LinkCell::Symbol(x, s) => LinkCellView::Symbol(*x, s@),
            LinkCell::Skip(x) => LinkCellView::Skip(*x),
        }
    }
}

/// The views of link cells.
pub open spec fn cells_view(s: Seq<LinkCell>) -> Seq<LinkCellView> {
    s.map_values(|c: LinkCell| c@)
}

/// The escape sequence that opens a link to `url`.
pub open spec fn link_open(url: Seq<char>) -> Seq<char> {
    seq!['\u{1b}', ']', '8', ';', ';'] + url + seq!['\u{1b}', '\\']
}

/// The escape sequence that closes a link.
pub open spec fn link_close() -> Seq<char> {
    seq!['\u{1b}', ']', '8', ';', ';', '\u{1b}', '\\']
}

/// The offset after `pos`, wrapping around.
pub open spec fn next_offset(pos: u16) -> u16 {
    if pos == u16::MAX { 0 } else { (pos + 1) as u16 }
}

/// The cells of a chunk: a pair fills its cell and skips the next; the first pair opens the
/// link and the last one closes it.
pub open spec fn chunk_cells(c: Chunk, url: Seq<char>) -> Seq<LinkCellView> {
    match c {
        Chunk::First(f, s) => seq![LinkCellView::Symbol(0, link_open(url) + seq![f, s]), LinkCellView::Skip(1)],
        Chunk::Middle(pos, f, s) => seq![LinkCellView::Symbol(pos, seq![f, s]), LinkCellView::Skip(next_offset(pos))],
        Chunk::MiddleSquezed(pos, f) => seq![LinkCellView::Symbol(pos, seq![f])],
        Chunk::Last(pos, f, s) => seq![LinkCellView::Symbol(pos, seq![f, s] + link_close()), LinkCellView::Skip(next_offset(pos))],
    }
}

/// The cells of the first `n` chunks.
pub open spec fn link_cells(chunks: Seq<Chunk>, url: Seq<char>, n: int) -> Seq<LinkCellView>
    decreases n,
{
    if n <= 0 {
        Seq::empty()
    } else {
        link_cells(chunks, url, n - 1) + chunk_cells(chunks[n - 1], url)
    }
}

/// A link with its text and URL.
pub struct Link {
    pub text: String,
    pub url: String,
}

impl Link {
    pub fn new(text: &str, url: &str) -> (l: Link)
        ensures
            l.text@ == text@,
            l.url@ == url@,
    {
        Link { text: text.to_owned(), url: url.to_owned() }
    }

    /// The cells that the link fills, by offset from its first cell (see [`chunk_cells`]).
    pub fn cells(&self) -> (r: Vec<LinkCell>)
        ensures
            cells_view(r@) == link_cells(chunks_upto(self.text@, self.text@.len() as int), self.url@, chunks_upto(self.text@, self.text@.len() as int).len() as int),
    {
        let chunks = pairs_and_chunks(self.text.as_str());
        let mut out: Vec<LinkCell> = Vec::new();
        for k in 0..chunks.len()
            invariant
                cells_view(out@) == link_cells(chunks@, self.url@, k as int),
        {
            proof {
                reveal_strlit("\u{1b}]8;;");
                reveal_strlit("\u{1b}\\");
                reveal_strlit("\u{1b}]8;;\u{1b}\\");
                assert("\u{1b}]8;;"@ =~= seq!['\u{1b}', ']', '8', ';', ';']);
                assert("\u{1b}\\"@ =~= seq!['\u{1b}', '\\']);
                assert("\u{1b}]8;;\u{1b}\\"@ =~= link_close());
            }
            let ghost o = cells_view(out@);
            match chunks[k] {
                Chunk::First(f, s) => {
                    let mut sym = "\u{1b}]8;;".to_owned();
                    sym.append(self.url.as_str());
                    sym.append("\u{1b}\\");
                    sym.push(f);
                    sym.push(s);
                    assert(sym@ =~= link_open(self.url@) + seq![f, s]);
                    out.push(LinkCell::Symbol(0, sym));
                    out.push(LinkCell::Skip(1));
                },
                Chunk::Middle(pos, f, s) => {
                    let mut sym = String::new();
                    sym.push(f);
                    sym.push(s);
                    assert(sym@ =~= seq![f, s]);
                    out.push(LinkCell::Symbol(pos, sym));
                    out.push(LinkCell::Skip(if pos == u16::MAX { 0 } else { pos + 1 }));
                },
                Chunk::MiddleSquezed(pos, f) => {
                    let mut sym = String::new();
                    sym.push(f);
                    out.push(LinkCell::Symbol(pos, sym));
                },
                Chunk::Last(pos, f, s) => {
                    let mut sym = String::new();
                    sym.push(f);
                    sym.push(s);
                    sym.append("\u{1b}]8;;\u{1b}\\");
                    assert(sym@ =~= seq![f, s] + link_close());
                    out.push(LinkCell::Symbol(pos, sym));
                    out.push(LinkCell::Skip(if pos == u16::MAX { 0 } else { pos + 1 }));
                },
            }
            proof {
                assert(cells_view(out@) =~= o + chunk_cells(chunks@[k as int], self.url@));
            }
        }
        out
    }
}

} // verus!
