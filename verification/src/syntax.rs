//! Syntax trees of markdown as tree-sitter-md parses them, as plain values: the nodes in
//! preorder, each with its kind, its range in the text and its depth in the tree.
use vstd::prelude::*;

use crate::text::{byte_offset, is_boundary, char_index, byte_offsets, lemma_char_index, lemma_byte_offset_mono};

verus! {

/// A node of a syntax tree: its kind, its byte range in the parsed text, its depth in the
/// tree (the root has depth 0) and the column where it starts.
pub struct SyntaxNode {
    pub kind: String,
    pub start_byte: usize,
    pub end_byte: usize,
    pub depth: usize,
    pub column: usize,
}

/// The mathematical value of a [`SyntaxNode`].
pub struct SyntaxNodeView {
    pub kind: Seq<char>,
    pub start_byte: usize,
    pub end_byte: usize,
    pub depth: usize,
    pub column: usize,
}

impl View for SyntaxNode {
    type V = SyntaxNodeView;

    open spec fn view(&self) -> SyntaxNodeView {
        SyntaxNodeView {
            kind: self.kind@,
            start_byte: self.start_byte,
            end_byte: self.end_byte,
            depth: self.depth,
            column: self.column,
        }
    }
}

/// The views of syntax nodes.
pub open spec fn syntax_view(s: Seq<SyntaxNode>) -> Seq<SyntaxNodeView> {
    s.map_values(|n: SyntaxNode| n@)
}

/// The views of the nodes of a tree, if there is one.
pub open spec fn tree_view(t: Option<Vec<SyntaxNode>>) -> Option<Seq<SyntaxNodeView>> {
    match t {
        Some(v) => Some(syntax_view(v@)),
        None => None,
    }
}

/// The nodes, in preorder, of the tree into which tree-sitter-md's block grammar parses
/// `text`, or `None` when it gives no tree.
pub uninterp spec fn block_syntax(text: Seq<char>) -> Option<Seq<SyntaxNodeView>>;

/// The nodes, in preorder, of the tree into which tree-sitter-md's inline grammar parses
/// `text`, or `None` when it gives no tree.
pub uninterp spec fn inline_syntax(text: Seq<char>) -> Option<Seq<SyntaxNodeView>>;

/// `tree_sitter::Parser::parse` with the block grammar of `tree_sitter_md`, the tree read
/// back in preorder with a tree cursor.
///
/// Trusted: the result is the named tree of `text`. No more is claimed: the node ranges and
/// depths are checked by the code that reads them.
#[verifier::external_body]
pub(crate) fn parse_block_syntax(text: &str) -> (r: Option<Vec<SyntaxNode>>)
    ensures
        match r {
            Some(v) => block_syntax(text@) == Some(syntax_view(v@)),
            None => block_syntax(text@) is None,
        },
{
    let mut parser = tree_sitter::Parser::new();
    parser.set_language(&tree_sitter_md::LANGUAGE.into()).ok()?;
    let tree = parser.parse(text, None)?;
    let mut cursor = tree.walk();
    let mut nodes = Vec::new();
    loop {
        let n = cursor.node();
        nodes.push(SyntaxNode { kind: n.kind().to_owned(), start_byte: n.start_byte(), end_byte: n.end_byte(), depth: cursor.depth() as usize, column: n.start_position().column });
        if cursor.goto_first_child() { continue; }
        while !cursor.goto_next_sibling() { if !cursor.goto_parent() { return Some(nodes); } }
    }
}

/// `tree_sitter::Parser::parse` with the inline grammar of `tree_sitter_md`, the tree read
/// back in preorder with a tree cursor.
///
/// Trusted: the result is the named tree of `text`. No more is claimed: the node ranges and
/// depths are checked by the code that reads them.
#[verifier::external_body]
pub(crate) fn parse_inline_syntax(text: &str) -> (r: Option<Vec<SyntaxNode>>)
    ensures
        match r {
            Some(v) => inline_syntax(text@) == Some(syntax_view(v@)),
            None => inline_syntax(text@) is None,
        },
{
    let mut parser = tree_sitter::Parser::new();
    parser.set_language(&tree_sitter_md::INLINE_LANGUAGE.into()).ok()?;
    let tree = parser.parse(text, None)?;
    let mut cursor = tree.walk();
    let mut nodes = Vec::new();
    loop {
        let n = cursor.node();
        nodes.push(SyntaxNode { kind: n.kind().to_owned(), start_byte: n.start_byte(), end_byte: n.end_byte(), depth: cursor.depth() as usize, column: n.start_position().column });
        if cursor.goto_first_child() { continue; }
        while !cursor.goto_next_sibling() { if !cursor.goto_parent() { return Some(nodes); } }
    }
}

/// A node of a syntax tree with its range as character positions in the text.
pub struct TextNode {
    pub kind: String,
    pub start: usize,
    pub end: usize,
    pub depth: usize,
    pub column: usize,
}

/// The mathematical value of a [`TextNode`].
pub struct TextNodeView {
    pub kind: Seq<char>,
    pub start: usize,
    pub end: usize,
    pub depth: usize,
    pub column: usize,
}

impl View for TextNode {
    type V = TextNodeView;

    open spec fn view(&self) -> TextNodeView {
        TextNodeView { kind: self.kind@, start: self.start, end: self.end, depth: self.depth, column: self.column }
    }
}

/// The views of text nodes.
pub open spec fn nodes_view(s: Seq<TextNode>) -> Seq<TextNodeView> {
    s.map_values(|n: TextNode| n@)
}

/// Depths as a preorder walk gives them: the first node is the root, and each node is at
/// most one level below the one before it.
pub open spec fn preorder_depths(ns: Seq<SyntaxNodeView>) -> bool {
    &&& ns.len() > 0 ==> ns[0].depth == 0
    &&& forall|k: int| 0 <= k < ns.len() - 1 ==> #[trigger] ns[k + 1].depth <= ns[k].depth + 1
}

/// The node's range is ordered and falls on character boundaries of `text`.
pub open spec fn range_ok(text: Seq<char>, n: SyntaxNodeView) -> bool {
    &&& n.start_byte <= n.end_byte
    &&& is_boundary(text, n.start_byte as int)
    &&& is_boundary(text, n.end_byte as int)
}

/// The node with its range as character positions.
pub open spec fn text_node(text: Seq<char>, n: SyntaxNodeView) -> TextNodeView {
    TextNodeView {
        kind: n.kind,
        start: char_index(text, n.start_byte as int) as usize,
        end: char_index(text, n.end_byte as int) as usize,
        depth: n.depth,
        column: n.column,
    }
}

/// The nodes with character ranges, when their depths are those of a preorder walk and all
/// ranges fall on character boundaries of `text`.
pub open spec fn text_nodes(text: Seq<char>, ns: Seq<SyntaxNodeView>) -> Option<Seq<TextNodeView>> {
    if preorder_depths(ns) && byte_offset(text, text.len() as int) <= usize::MAX
        && forall|k: int| 0 <= k < ns.len() ==> range_ok(text, #[trigger] ns[k]) {
        Some(ns.map_values(|n: SyntaxNodeView| text_node(text, n)))
    } else {
        None
    }
}

/// The position of the character that starts at byte `b`, if one does (the end counts).
fn index_of_offset(offsets: &Vec<usize>, text: &Vec<char>, b: usize) -> (r: Option<usize>)
    requires
        offsets@.len() == text@.len() + 1,
        forall|k: int| 0 <= k <= text@.len() ==> #[trigger] offsets@[k] == byte_offset(text@, k),
    ensures
        match r {
            Some(i) => is_boundary(text@, b as int) && i == char_index(text@, b as int),
            None => !is_boundary(text@, b as int),
        },
{
    let mut lo: usize = 0;
    let mut hi: usize = offsets.len();
    while lo < hi
        invariant
            offsets@.len() == text@.len() + 1,
            forall|k: int| 0 <= k <= text@.len() ==> #[trigger] offsets@[k] == byte_offset(text@, k),
            0 <= lo <= hi <= offsets@.len(),
            forall|k: int| 0 <= k < lo ==> byte_offset(text@, k) < b,
            forall|k: int| hi <= k <= text@.len() ==> byte_offset(text@, k) > b,
        decreases hi - lo,
    {
        let mid = lo + (hi - lo) / 2;
        let o = offsets[mid];
        if o == b {
            proof {
                assert(byte_offset(text@, mid as int) == b);
                lemma_char_index(text@, b as int);
            }
            return Some(mid);
        } else if o < b {
            proof {
                assert forall|k: int| 0 <= k < mid + 1 implies byte_offset(text@, k) < b by {
                    if k < mid {
                        lemma_byte_offset_mono(text@, k, mid as int);
                    }
                }
            }
            lo = mid + 1;
        } else {
            proof {
                assert forall|k: int| mid <= k <= text@.len() implies byte_offset(text@, k) > b by {
                    if mid < k {
                        lemma_byte_offset_mono(text@, mid as int, k);
                    }
                }
            }
            hi = mid;
        }
    }
    proof {
        if is_boundary(text@, b as int) {
            let k = choose|k: int| 0 <= k <= text@.len() && #[trigger] byte_offset(text@, k) == b as int;
            assert(byte_offset(text@, k) == b);
        }
    }
    None
}

/// The nodes with character ranges (see [`text_nodes`]).
pub fn to_text_nodes(text: &Vec<char>, ns: &Vec<SyntaxNode>) -> (r: Option<Vec<TextNode>>)
    ensures
        match r {
            Some(v) => text_nodes(text@, syntax_view(ns@)) == Some(nodes_view(v@)),
            None => text_nodes(text@, syntax_view(ns@)) is None,
        },
{
    let ghost sv = syntax_view(ns@);
    let offsets = match byte_offsets(text) {
        Some(o) => o,
        None => {
            return None;
        },
    };
    proof { assert(offsets@[text@.len() as int] == byte_offset(text@, text@.len() as int)); }
    let mut out: Vec<TextNode> = Vec::new();
    for k in 0..ns.len()
        invariant
            sv == syntax_view(ns@),
            offsets@.len() == text@.len() + 1,
            forall|j: int| 0 <= j <= text@.len() ==> #[trigger] offsets@[j] == byte_offset(text@, j),
            byte_offset(text@, text@.len() as int) <= usize::MAX,
            out@.len() == k,
            forall|j: int| 0 <= j < k ==> range_ok(text@, #[trigger] sv[j]),
            forall|j: int| 0 <= j < k ==> #[trigger] nodes_view(out@)[j] == text_node(text@, sv[j]),
            k > 0 ==> sv[0].depth == 0,
            forall|j: int| 0 <= j < k - 1 ==> #[trigger] sv[j + 1].depth <= sv[j].depth + 1,
    {
        let n = &ns[k];
        proof { assert(sv[k as int] == n@); }
        if (k == 0 && n.depth != 0) || (k > 0 && n.depth > ns[k - 1].depth && n.depth - ns[k - 1].depth > 1) {
            proof {
                if k > 0 {
                    assert(sv[(k - 1) + 1].depth > sv[k - 1].depth + 1);
                }
            }
            return None;
        }
        if n.start_byte > n.end_byte {
            assert(!range_ok(text@, sv[k as int]));
            return None;
        }
        let s = match index_of_offset(&offsets, text, n.start_byte) {
            Some(i) => i,
            None => {
                assert(!range_ok(text@, sv[k as int]));
                return None;
            },
        };
        let e = match index_of_offset(&offsets, text, n.end_byte) {
            Some(i) => i,
            None => {
                assert(!range_ok(text@, sv[k as int]));
                return None;
            },
        };
        let t = TextNode { kind: n.kind.clone(), start: s, end: e, depth: n.depth, column: n.column };
        let ghost o = out@;
        out.push(t);
        proof {
            assert(out@ =~= o.push(t));
            assert(nodes_view(out@)[k as int] == t@);
            assert forall|j: int| 0 <= j < k + 1 implies #[trigger] nodes_view(out@)[j] == text_node(text@, sv[j]) by {
                if j < k {
                    assert(nodes_view(out@)[j] == nodes_view(o)[j]);
                }
            }
        }
    }
    proof {
        assert(preorder_depths(sv));
        assert(nodes_view(out@) =~= sv.map_values(|n: SyntaxNodeView| text_node(text@, n)));
    }
    Some(out)
}

} // verus!
