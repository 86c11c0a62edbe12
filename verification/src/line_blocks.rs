//! A first pass over markdown that only tells blocks apart: headers, images alone in their
//! paragraph, other paragraphs, and fenced code blocks.
use vstd::prelude::*;

use crate::blocks::{children, children_exec, heading_content, heading_exec, node_text};
use crate::inline::{is_kind, slice_string};
use crate::markdown::{MdContent, MdContentView};
use crate::pipeline::Block;
use crate::syntax::{
    block_syntax, inline_syntax, nodes_view, parse_block_syntax, parse_inline_syntax, syntax_view, text_nodes,
    to_text_nodes, tree_view, SyntaxNode, TextNode, TextNodeView,
};
use crate::text::chars_of;

verus! {

/// The mathematical value of a [`Block`].
pub enum BlockView {
    Header(u8, Seq<char>),
    Image(Seq<char>, Seq<char>),
    Paragraph(Seq<char>),
    FencedCodeBlock(Seq<char>),
}

impl View for Block {
    type V = BlockView;

    open spec fn view(&self) -> BlockView {
        match self {
            Block::Header(t, s) => BlockView::Header(*t, s@),
            Block::Image(d, u) => BlockView::Image(d@, u@),
            Block::Paragraph(s) => BlockView::Paragraph(s@),
            Block::FencedCodeBlock(s) => BlockView::FencedCodeBlock(s@),
        }
    }
}

pub open spec fn blocks_view(s: Seq<Block>) -> Seq<BlockView> {
    s.map_values(|b: Block| b@)
}

/// The end of the subtree of node `i`: the first node from `j` on that is not deeper.
pub open spec fn subtree_end(ns: Seq<TextNodeView>, i: int, j: int) -> int
    decreases ns.len() - j,
{
    if j < 0 || j >= ns.len() || ns[j].depth <= ns[i].depth {
        j
    } else {
        subtree_end(ns, i, j + 1)
    }
}

pub proof fn lemma_subtree_end(ns: Seq<TextNodeView>, i: int, j: int)
    requires
        0 <= j,
    ensures
        j <= subtree_end(ns, i, j),
        j <= ns.len() ==> subtree_end(ns, i, j) <= ns.len(),
    decreases ns.len() - j,
{
    if j < ns.len() && ns[j].depth > ns[i].depth {
        lemma_subtree_end(ns, i, j + 1);
    }
}

/// The description and destination of an image after its first `k` children.
pub open spec fn image_fold(ns: Seq<TextNodeView>, src: Seq<char>, cs: Seq<int>, k: int) -> (Seq<char>, Seq<char>)
    decreases k,
{
    if k <= 0 {
        (Seq::empty(), Seq::empty())
    } else {
        let (d, u) = image_fold(ns, src, cs, k - 1);
        let c = cs[k - 1];
        if ns[c].kind == "image_description"@ {
            (node_text(ns, src, c), u)
        } else if ns[c].kind == "link_destination"@ {
            (d, node_text(ns, src, c))
        } else {
            (d, u)
        }
    }
}

/// The image that the inline text `text` is made of, if its inline tree (read with
/// character ranges) holds a single image and nothing else: its description and destination.
pub open spec fn image_spec(text: Seq<char>, tree: Option<Seq<crate::syntax::SyntaxNodeView>>) -> Option<(Seq<char>, Seq<char>)> {
    match tree {
        None => None,
        Some(t) => match text_nodes(text, t) {
            None => None,
            Some(ins) => {
                let cs = children(ins, 0);
                if ins.len() > 0 && ins[0].kind == "inline"@ && cs.len() == 1 && ins[cs[0]].kind == "image"@ {
                    let ics = children(ins, cs[0]);
                    Some(image_fold(ins, text, ics, ics.len() as int))
                } else {
                    None
                }
            },
        },
    }
}

/// The image that an inline text is made of, if it is made of one (see [`image_spec`]).
pub fn image_of_inline(text: &str, tree: Option<Vec<SyntaxNode>>) -> (r: Option<(String, String)>)
    ensures
        match r {
            Some((d, u)) => image_spec(text@, tree_view(tree)) == Some((d@, u@)),
            None => image_spec(text@, tree_view(tree)) is None,
        },
{
    let t = match tree {
        Some(t) => t,
        None => return None,
    };
    let chars = chars_of(text);
    let ins = match to_text_nodes(&chars, &t) {
        Some(ins) => ins,
        None => return None,
    };
    let ghost nv = nodes_view(ins@);
    if ins.len() == 0 || !is_kind(&ins[0].kind, "inline") {
        proof { if ins@.len() > 0 { assert(nv[0] == ins@[0]@); } }
        return None;
    }
    proof { assert(nv[0] == ins@[0]@); }
    let cs = children_exec(&ins, 0);
    if cs.len() != 1 {
        return None;
    }
    let img = cs[0];
    proof {
        assert(cs@.map_values(|k: usize| k as int)[0] == img as int);
        assert(nv[img as int] == ins@[img as int]@);
    }
    if !is_kind(&ins[img].kind, "image") {
        return None;
    }
    let ics = children_exec(&ins, img);
    let ghost icsv = ics@.map_values(|k: usize| k as int);
    let mut d = String::new();
    let mut u = String::new();
    for k in 0..ics.len()
        invariant
            nv == nodes_view(ins@),
            chars@ == text@,
            icsv == ics@.map_values(|k: usize| k as int),
            icsv == children(nv, img as int),
            forall|m: int| 0 <= m < ics@.len() ==> img < #[trigger] ics@[m] < ins@.len(),
            (d@, u@) == image_fold(nv, text@, icsv, k as int),
    {
        let c = ics[k];
        proof { assert(icsv[k as int] == c as int); assert(nv[c as int] == ins@[c as int]@); }
        if is_kind(&ins[c].kind, "image_description") {
            d = slice_string(&chars, ins[c].start, ins[c].end);
        } else if is_kind(&ins[c].kind, "link_destination") {
            u = slice_string(&chars, ins[c].start, ins[c].end);
        }
    }
    Some((d, u))
}

/// The block of a paragraph node: an image when its only child is inline text made of an
/// image alone, the paragraph's text otherwise.
pub open spec fn paragraph_block(ns: Seq<TextNodeView>, src: Seq<char>, i: int) -> BlockView {
    let cs = children(ns, i);
    if cs.len() == 1 && ns[cs[0]].kind == "inline"@ {
        let itext = node_text(ns, src, cs[0]);
        match image_spec(itext, inline_syntax(itext)) {
            Some((d, u)) => BlockView::Image(d, u),
            None => BlockView::Paragraph(node_text(ns, src, i)),
        }
    } else {
        BlockView::Paragraph(node_text(ns, src, i))
    }
}

/// The blocks from node `i` on, in preorder: a heading, a paragraph or a fenced code block
/// is a block (and what is inside it is not looked at); other nodes are looked into.
pub open spec fn blocks_from(ns: Seq<TextNodeView>, src: Seq<char>, i: int) -> Seq<BlockView>
    decreases ns.len() - i,
{
    if i < 0 || i >= ns.len() {
        Seq::empty()
    } else {
        let next = subtree_end(ns, i, i + 1);
        proof { lemma_subtree_end(ns, i, i + 1); }
        if ns[i].kind == "atx_heading"@ {
            let b = match heading_content(ns, src, i) {
                MdContentView::Header { tier, text } => BlockView::Header(tier, text),
                _ => BlockView::Paragraph(Seq::empty()),
            };
            seq![b] + blocks_from(ns, src, next)
        } else if ns[i].kind == "paragraph"@ {
            seq![paragraph_block(ns, src, i)] + blocks_from(ns, src, next)
        } else if ns[i].kind == "fenced_code_block"@ {
            seq![BlockView::FencedCodeBlock(node_text(ns, src, i))] + blocks_from(ns, src, next)
        } else {
            blocks_from(ns, src, i + 1)
        }
    }
}

/// The blocks of a markdown text, when tree-sitter-md gives a tree whose ranges fit the text.
pub open spec fn header_image_blocks(text: Seq<char>) -> Option<Seq<BlockView>> {
    match block_syntax(text) {
        None => None,
        Some(t) => match text_nodes(text, t) {
            None => None,
            Some(ns) => Some(blocks_from(ns, text, 0)),
        },
    }
}

/// The end of the subtree of node `i` (see [`subtree_end`]).
fn subtree_end_exec(ns: &Vec<TextNode>, i: usize) -> (j: usize)
    requires
        i < ns@.len(),
    ensures
        j == subtree_end(nodes_view(ns@), i as int, i + 1),
        i < j <= ns@.len(),
{
    let ghost nv = nodes_view(ns@);
    let total = ns.len();
    assert(i < total);
    let mut j = i + 1;
    while j < ns.len() && ns[j].depth > ns[i].depth
        invariant
            nv == nodes_view(ns@),
            i < j <= ns@.len(),
            subtree_end(nv, i as int, i + 1) == subtree_end(nv, i as int, j as int),
        decreases ns@.len() - j,
    {
        proof { assert(nv[j as int] == ns@[j as int]@); assert(nv[i as int] == ns@[i as int]@); }
        j = j + 1;
    }
    proof {
        if j < ns@.len() {
            assert(nv[j as int] == ns@[j as int]@);
            assert(nv[i as int] == ns@[i as int]@);
        }
    }
    j
}

/// The block of a paragraph node (see [`paragraph_block`]); parses its inline text.
fn paragraph_block_exec(ns: &Vec<TextNode>, src: &Vec<char>, i: usize) -> (b: Block)
    requires
        i < ns@.len(),
    ensures
        b@ == paragraph_block(nodes_view(ns@), src@, i as int),
{
    let ghost nv = nodes_view(ns@);
    proof { assert(nv[i as int] == ns@[i as int]@); }
    let cs = children_exec(ns, i);
    if cs.len() == 1 {
        let c = cs[0];
        proof {
            assert(cs@.map_values(|k: usize| k as int)[0] == c as int);
            assert(nv[c as int] == ns@[c as int]@);
        }
        if is_kind(&ns[c].kind, "inline") {
            let itext = slice_string(src, ns[c].start, ns[c].end);
            let tree = parse_inline_syntax(itext.as_str());
            proof { assert(tree_view(tree) == inline_syntax(itext@)); }
            match image_of_inline(itext.as_str(), tree) {
                Some((d, u)) => return Block::Image(d, u),
                None => {},
            }
        }
    }
    Block::Paragraph(slice_string(src, ns[i].start, ns[i].end))
}

/// The blocks of text nodes (see [`blocks_from`]).
pub fn walk_blocks(ns: &Vec<TextNode>, src: &Vec<char>) -> (r: Vec<Block>)
    ensures
        blocks_view(r@) == blocks_from(nodes_view(ns@), src@, 0),
{
    let ghost nv = nodes_view(ns@);
    let mut out: Vec<Block> = Vec::new();
    let mut i: usize = 0;
    while i < ns.len()
        invariant
            nv == nodes_view(ns@),
            i <= ns@.len(),
            blocks_from(nv, src@, 0) == blocks_view(out@) + blocks_from(nv, src@, i as int),
        decreases ns@.len() - i,
    {
        proof { assert(nv[i as int] == ns@[i as int]@); }
        let ghost before = out@;
        if is_kind(&ns[i].kind, "atx_heading") {
            let b = match heading_exec(ns, src, i) {
                MdContent::Header { tier, text } => Block::Header(tier, text),
                _ => Block::Paragraph(String::new()),
            };
            let next = subtree_end_exec(ns, i);
            out.push(b);
            proof { assert(blocks_view(out@) =~= blocks_view(before).push(b@)); }
            i = next;
        } else if is_kind(&ns[i].kind, "paragraph") {
            let b = paragraph_block_exec(ns, src, i);
            let next = subtree_end_exec(ns, i);
            out.push(b);
            proof { assert(blocks_view(out@) =~= blocks_view(before).push(b@)); }
            i = next;
        } else if is_kind(&ns[i].kind, "fenced_code_block") {
            let b = Block::FencedCodeBlock(slice_string(src, ns[i].start, ns[i].end));
            let next = subtree_end_exec(ns, i);
            out.push(b);
            proof { assert(blocks_view(out@) =~= blocks_view(before).push(b@)); }
            i = next;
        } else {
            i = i + 1;
        }
    }
    out
}

/// Split markdown into headers, lone images, paragraphs and fenced code blocks (see
/// [`header_image_blocks`]); `None` when tree-sitter-md gives no usable tree.
pub fn split_headers_and_images(text: &str) -> (r: Option<Vec<Block>>)
    ensures
        match r {
            Some(v) => header_image_blocks(text@) == Some(blocks_view(v@)),
            None => header_image_blocks(text@) is None,
        },
{
    let nodes = match parse_block_syntax(text) {
        Some(n) => n,
        None => return None,
    };
    let chars = chars_of(text);
    match to_text_nodes(&chars, &nodes) {
        Some(ns) => Some(walk_blocks(&ns, &chars)),
        None => None,
    }
}

} // verus!
