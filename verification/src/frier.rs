//! The entry point: markdown text in, wrapped and decorated lines out.
use vstd::prelude::*;

use crate::blocks::{MarkdownParseError, markdown_sections, parse_sections};
use crate::document::{document_lines, sections_to_lines};
use crate::lines::{Line, LineKind, LineView, lines_view};
use crate::mapper::{Mapper, Symbols, mapper_gives};
use crate::markdown::sections_view;
use crate::span::copy_spans;

verus! {

impl LineKind {
    /// A copy of this kind.
    pub fn copy(&self) -> (k: LineKind)
        ensures
            k@ == self@,
    {
        match self {
            LineKind::Paragraph => LineKind::Paragraph,
            LineKind::Header(t) => LineKind::Header(*t),
            LineKind::CodeBlock { language } => LineKind::CodeBlock { language: language.clone() },
            LineKind::HorizontalRule => LineKind::HorizontalRule,
            LineKind::TableRow { is_header } => LineKind::TableRow { is_header: *is_header },
            LineKind::TableBorder => LineKind::TableBorder,
            LineKind::Image { url, description } => LineKind::Image { url: url.clone(), description: description.clone() },
            LineKind::Blank => LineKind::Blank,
        }
    }
}

impl Line {
    /// A copy of this line.
    pub fn copy(&self) -> (l: Line)
        ensures
            l@ == self@,
    {
        Line { spans: copy_spans(&self.spans), kind: self.kind.copy() }
    }
}

/// The lines of a parsed document, handed out one at a time.
pub struct LineIterator {
    lines: Vec<Line>,
    pos: usize,
}

impl View for LineIterator {
    type V = Seq<LineView>;

    /// The lines not handed out yet.
    closed spec fn view(&self) -> Seq<LineView> {
        if self.pos <= self.lines@.len() { lines_view(self.lines@).skip(self.pos as int) } else { Seq::empty() }
    }
}

impl LineIterator {
    /// An iterator over `lines`.
    pub fn new(lines: Vec<Line>) -> (it: LineIterator)
        ensures
            it@ == lines_view(lines@),
    {
        let it = LineIterator { lines, pos: 0 };
        assert(lines_view(it.lines@).skip(0) =~= lines_view(it.lines@));
        it
    }

    /// The next line, if any is left.
    pub fn next(&mut self) -> (r: Option<Line>)
        ensures
            old(self)@.len() == 0 ==> r is None && final(self)@ == old(self)@,
            old(self)@.len() > 0 ==> (r matches Some(l) && l@ == old(self)@[0] && final(self)@ == old(self)@.drop_first()),
    {
        if self.pos < self.lines.len() {
            let l = self.lines[self.pos].copy();
            proof {
                assert(lines_view(self.lines@)[self.pos as int] == self.lines@[self.pos as int]@);
                assert(lines_view(self.lines@).skip(self.pos + 1) =~= lines_view(self.lines@).skip(self.pos as int).drop_first());
            }
            self.pos = self.pos + 1;
            Some(l)
        } else {
            proof {
                if self.pos == self.lines@.len() {
                    assert(lines_view(self.lines@).skip(self.pos as int) =~= Seq::<LineView>::empty());
                }
            }
            None
        }
    }

    /// The number of lines not handed out yet.
    pub fn remaining(&self) -> (n: usize)
        ensures
            n == self@.len(),
    {
        proof {
            if self.pos == self.lines@.len() {
                assert(lines_view(self.lines@).skip(self.pos as int) =~= Seq::<LineView>::empty());
            }
        }
        if self.pos < self.lines.len() { self.lines.len() - self.pos } else { 0 }
    }
}

/// The markdown parser.
///
/// Parses markdown with tree-sitter-md into lines wrapped for a fixed width, with the
/// decorators of a [`Mapper`].
pub struct MdFrier;

/// The lines of the markdown `text` for `width` columns with the symbols `sym`, when
/// tree-sitter-md gives the text a usable tree.
pub open spec fn markdown_lines(width: u16, text: Seq<char>, sym: Symbols) -> Option<Seq<LineView>> {
    match markdown_sections(text) {
        Some(s) => Some(document_lines(width, s, sym)),
        None => None,
    }
}

impl MdFrier {
    /// Create a new parser.
    pub fn new() -> (r: Result<MdFrier, MarkdownParseError>)
        ensures
            r is Ok,
    {
        Ok(MdFrier)
    }

    /// Parse markdown `text` into lines of `width` columns decorated with the symbols `sym`
    /// (see [`markdown_lines`]).
    pub fn parse_with(&mut self, width: u16, text: &str, sym: &Symbols) -> (r: Result<LineIterator, MarkdownParseError>)
        ensures
            match r {
                Ok(it) => markdown_lines(width, text@, *sym) == Some(it@),
                Err(_) => markdown_lines(width, text@, *sym) is None,
            },
    {
        match parse_sections(text) {
            Ok(sections) => Ok(LineIterator::new(sections_to_lines(width, &sections, sym))),
            Err(e) => Err(e),
        }
    }

    /// Parse markdown `text` into lines of `width` columns; `mapper` controls how decorators
    /// are rendered (link brackets, blockquote bars, list markers, ...).
    pub fn parse<M: Mapper>(&mut self, width: u16, text: &str, mapper: &M) -> (r: Result<LineIterator, MarkdownParseError>)
        ensures
            match r {
                Ok(it) => exists|sym: Symbols| mapper_gives(mapper, sym) && markdown_lines(width, text@, sym) == Some(it@),
                Err(_) => markdown_sections(text@) is None,
            },
    {
        let sym = Symbols::of(mapper);
        self.parse_with(width, text, &sym)
    }
}

} // verus!
