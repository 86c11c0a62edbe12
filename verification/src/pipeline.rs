//! The viewer's own line rendering: spans with the viewer's modifier set, their styles, and
//! the prefixes of nested content written as in the source.
use vstd::prelude::*;

use crate::markdown::{MdContainer, MdContainerView, nesting_view};
use crate::lines::{last_item_index, last_list_item};
use crate::style::{Style, StyledSpan, StyledSpanView, TermColor, TextModifier, plain_style, adding, styled_view};
use crate::text::{chars_of, repeat_seq, repeat_str};

verus! {

/// Modifier flags of the viewer's spans, as bits.
#[derive(Debug, Default, Clone, Copy, PartialEq, Eq, Structural)]
pub struct MdModifier {
    pub bits: u16,
}

impl MdModifier {
    pub const EMPHASIS: u16 = 1 << 0;
    pub const STRONG_EMPHASIS: u16 = 1 << 1;
    pub const CODE: u16 = 1 << 2;
    pub const LINK: u16 = 1 << 3;
    pub const LINK_DESCRIPTION: u16 = 1 << 4;
    pub const LINK_DESCRIPTION_WRAPPER: u16 = 1 << 5;
    pub const LINK_URL: u16 = 1 << 6;
    pub const LINK_URL_WRAPPER: u16 = 1 << 7;
    pub const IMAGE: u16 = 1 << 8;
    pub const NEW_LINE: u16 = 1 << 9;

    /// All flags of `bits` are set.
    pub open spec fn has(self, bits: u16) -> bool {
        self.bits & bits == bits
    }

    /// Whether all the flags of `bits` are set.
    pub fn contains(self, bits: u16) -> (b: bool)
        ensures
            b == self.has(bits),
    {
        self.bits & bits == bits
    }
}

/// A span of text with the viewer's modifiers.
#[derive(Debug, PartialEq)]
pub struct MdSpan {
    pub content: String,
    pub extra: MdModifier,
}

impl MdSpan {
    pub fn new(content: String, extra: MdModifier) -> (s: MdSpan)
        ensures
            s.content@ == content@,
            s.extra == extra,
    {
        MdSpan { content, extra }
    }

    /// The spans of an inline link as the parser gives them: brackets, description,
    /// parentheses and URL, all part of the link.
    pub fn link(description: &str, url: &str) -> (v: Vec<MdSpan>)
        ensures
            v@.len() == 6,
            v@[0].content@ == "["@ && v@[0].extra.bits == MdModifier::LINK,
            v@[1].content@ == description@ && v@[1].extra.bits == MdModifier::LINK,
            v@[2].content@ == "]"@ && v@[2].extra.bits == MdModifier::LINK,
            v@[3].content@ == "("@ && v@[3].extra.bits == MdModifier::LINK,
            v@[4].content@ == url@ && v@[4].extra.bits == MdModifier::LINK | MdModifier::LINK_URL,
            v@[5].content@ == ")"@ && v@[5].extra.bits == MdModifier::LINK,
    {
        let mut v: Vec<MdSpan> = Vec::new();
        v.push(MdSpan::new("[".to_owned(), MdModifier { bits: MdModifier::LINK }));
        v.push(MdSpan::new(description.to_owned(), MdModifier { bits: MdModifier::LINK }));
        v.push(MdSpan::new("]".to_owned(), MdModifier { bits: MdModifier::LINK }));
        v.push(MdSpan::new("(".to_owned(), MdModifier { bits: MdModifier::LINK }));
        v.push(MdSpan::new(url.to_owned(), MdModifier { bits: MdModifier::LINK | MdModifier::LINK_URL }));
        v.push(MdSpan::new(")".to_owned(), MdModifier { bits: MdModifier::LINK }));
        v
    }
}

/// A section of the viewer's first markdown model: a header, or spans of markdown.
pub enum MdSection {
    Header(String, u8),
    Markdown(Vec<MdSpan>),
}

/// A node of the viewer's line pipeline: text with the viewer's modifiers.
#[derive(Debug, PartialEq)]
pub struct MdNode {
    pub content: String,
    pub extra: MdModifier,
}

impl MdNode {
    pub fn new(content: String, extra: MdModifier) -> (s: MdNode)
        ensures
            s.content@ == content@,
            s.extra == extra,
    {
        MdNode { content, extra }
    }

    /// The nodes of an inline link: brackets, description, parentheses and URL, all part of
    /// the link.
    pub fn link(description: &str, url: &str) -> (v: Vec<MdNode>)
        ensures
            v@.len() == 6,
            v@[0].content@ == "["@ && v@[0].extra.bits == MdModifier::LINK,
            v@[1].content@ == description@ && v@[1].extra.bits == MdModifier::LINK,
            v@[2].content@ == "]"@ && v@[2].extra.bits == MdModifier::LINK,
            v@[3].content@ == "("@ && v@[3].extra.bits == MdModifier::LINK,
            v@[4].content@ == url@ && v@[4].extra.bits == MdModifier::LINK | MdModifier::LINK_URL,
            v@[5].content@ == ")"@ && v@[5].extra.bits == MdModifier::LINK,
    {
        let mut v: Vec<MdNode> = Vec::new();
        v.push(MdNode::new("[".to_owned(), MdModifier { bits: MdModifier::LINK }));
        v.push(MdNode::new(description.to_owned(), MdModifier { bits: MdModifier::LINK }));
        v.push(MdNode::new("]".to_owned(), MdModifier { bits: MdModifier::LINK }));
        v.push(MdNode::new("(".to_owned(), MdModifier { bits: MdModifier::LINK }));
        v.push(MdNode::new(url.to_owned(), MdModifier { bits: MdModifier::LINK | MdModifier::LINK_URL }));
        v.push(MdNode::new(")".to_owned(), MdModifier { bits: MdModifier::LINK }));
        v
    }
}

/// A block of a document as a first, line-based pass sees it.
#[derive(Debug, PartialEq, Eq)]
pub enum Block {
    Header(u8, String),
    Image(String, String),
    Paragraph(String),
    FencedCodeBlock(String),
}

/// The color of links' background, also of the brackets around them.
pub open spec fn link_bg() -> TermColor {
    TermColor::Indexed(237)
}

/// The style of a node by its emphasis and code modifiers.
pub open spec fn base_node_style(m: MdModifier) -> Style {
    let s1 = if m.has(MdModifier::EMPHASIS) { Style { fg: Some(TermColor::Indexed(220)), ..adding(plain_style(), TextModifier::ITALIC) } } else { plain_style() };
    let s2 = if m.has(MdModifier::STRONG_EMPHASIS) { Style { fg: Some(TermColor::Indexed(220)), ..adding(s1, TextModifier::BOLD) } } else { s1 };
    if m.has(MdModifier::CODE) { Style { fg: Some(TermColor::Indexed(203)), bg: Some(TermColor::Indexed(236)), ..s2 } } else { s2 }
}

/// A node styled: link brackets become half blocks in the link background color, link URLs
/// and descriptions get the link colors (URLs underlined).
pub open spec fn node_style(content: Seq<char>, m: MdModifier) -> StyledSpanView {
    let s = base_node_style(m);
    if m.has(MdModifier::LINK_URL_WRAPPER) {
        StyledSpanView { content: if content == seq!['('] { seq!['◖'] } else { seq!['◗'] }, style: Style { fg: Some(link_bg()), ..s } }
    } else {
        let s1 = if m.has(MdModifier::LINK_URL) {
            adding(Style { fg: Some(TermColor::Indexed(4)), bg: Some(link_bg()), ..s }, TextModifier::UNDERLINED)
        } else {
            s
        };
        if m.has(MdModifier::LINK_DESCRIPTION_WRAPPER) {
            StyledSpanView { content: if content == seq!['['] { seq!['▐'] } else { seq!['▌'] }, style: Style { fg: Some(link_bg()), ..s1 } }
        } else if m.has(MdModifier::LINK_DESCRIPTION) {
            StyledSpanView { content, style: Style { fg: Some(TermColor::Indexed(4)), bg: Some(link_bg()), ..s1 } }
        } else {
            StyledSpanView { content, style: s1 }
        }
    }
}

/// Style a node of the viewer's pipeline (see [`node_style`]).
pub fn span_from_mdspan(mdspan: MdNode) -> (r: StyledSpan)
    ensures
        r@ == node_style(mdspan.content@, mdspan.extra),
{
    let m = mdspan.extra;
    let mut style = Style::new();
    if m.contains(MdModifier::EMPHASIS) {
        style = style.add_modifier(TextModifier::ITALIC).fg(TermColor::Indexed(220));
    }
    if m.contains(MdModifier::STRONG_EMPHASIS) {
        style = style.add_modifier(TextModifier::BOLD).fg(TermColor::Indexed(220));
    }
    if m.contains(MdModifier::CODE) {
        style = style.fg(TermColor::Indexed(203)).bg(TermColor::Indexed(236));
    }
    proof {
        reveal_strlit("(");
        reveal_strlit("[");
        reveal_strlit("◖");
        reveal_strlit("◗");
        reveal_strlit("▐");
        reveal_strlit("▌");
        assert("("@ =~= seq!['(']);
        assert("["@ =~= seq!['[']);
        assert("◖"@ =~= seq!['◖']);
        assert("◗"@ =~= seq!['◗']);
        assert("▐"@ =~= seq!['▐']);
        assert("▌"@ =~= seq!['▌']);
    }
    if m.contains(MdModifier::LINK_URL_WRAPPER) {
        let bracket = if mdspan.content == "(".to_owned() { "◖" } else { "◗" };
        return StyledSpan::styled(bracket.to_owned(), style.fg(TermColor::Indexed(237)));
    }
    if m.contains(MdModifier::LINK_URL) {
        style = style.fg(TermColor::Indexed(4)).bg(TermColor::Indexed(237)).underlined();
    }
    if m.contains(MdModifier::LINK_DESCRIPTION_WRAPPER) {
        let bracket = if mdspan.content == "[".to_owned() { "▐" } else { "▌" };
        return StyledSpan::styled(bracket.to_owned(), style.fg(TermColor::Indexed(237)));
    }
    if m.contains(MdModifier::LINK_DESCRIPTION) {
        style = style.fg(TermColor::Indexed(4)).bg(TermColor::Indexed(237));
    }
    StyledSpan::styled(mdspan.content, style)
}

/// `s` with each non-overlapping occurrence of `pat`, from the left, replaced by `rep`.
pub open spec fn replaced(s: Seq<char>, pat: Seq<char>, rep: Seq<char>) -> Seq<char>
    decreases s.len(),
{
    if pat.len() == 0 || s.len() == 0 {
        s
    } else if s.len() >= pat.len() && s.take(pat.len() as int) == pat {
        rep + replaced(s.skip(pat.len() as int), pat, rep)
    } else {
        seq![s[0]] + replaced(s.drop_first(), pat, rep)
    }
}

/// `s[from..]` with `pat` replaced by `rep` (see [`replaced`]).
fn replace_from(s: &Vec<char>, pat: &Vec<char>, rep: &str) -> (r: String)
    requires
        pat@.len() > 0,
    ensures
        r@ == replaced(s@, pat@, rep@),
{
    let mut out = String::new();
    let mut i: usize = 0;
    assert(s@.skip(0) =~= s@);
    while i < s.len()
        invariant
            pat@.len() > 0,
            i <= s@.len(),
            out@ + replaced(s@.skip(i as int), pat@, rep@) == replaced(s@, pat@, rep@),
        decreases s@.len() - i,
    {
        let ghost rest = s@.skip(i as int);
        let mut matched = s.len() - i >= pat.len();
        if matched {
            let mut k: usize = 0;
            while k < pat.len()
                invariant_except_break
                    matched,
                    i + pat.len() <= s.len(),
                    i + pat@.len() <= s@.len(),
                    k <= pat@.len(),
                    forall|m: int| 0 <= m < k ==> s@[i + m] == pat@[m],
                ensures
                    matched ==> forall|m: int| 0 <= m < pat@.len() ==> s@[i + m] == pat@[m],
                    !matched ==> exists|m: int| 0 <= m < pat@.len() && s@[i + m] != pat@[m],
                decreases pat@.len() - k,
            {
                if s[i + k] != pat[k] {
                    matched = false;
                    break;
                }
                k = k + 1;
            }
            proof {
                if !matched {
                    let m = choose|m: int| 0 <= m < pat@.len() && s@[i + m] != pat@[m];
                    assert(rest.take(pat@.len() as int)[m] != pat@[m]);
                }
            }
        }
        if matched {
            assert(rest.take(pat@.len() as int) =~= pat@);
            out.append(rep);
            assert(rest.skip(pat@.len() as int) =~= s@.skip(i + pat@.len()));
            i = i + pat.len();
        } else {
            out.push(s[i]);
            assert(rest.drop_first() =~= s@.skip(i + 1));
            assert(rest[0] == s@[i as int]);
            i = i + 1;
        }
    }
    assert(s@.skip(i as int) =~= Seq::<char>::empty());
    out
}

/// The color of the blockquote bar at a depth.
pub open spec fn bar_color(depth: nat) -> TermColor {
    TermColor::Indexed((202 + if depth < 5 { depth } else { 5 }) as u8)
}

/// The spans of a blockquote bar at a depth, with the space after it when there is one.
pub open spec fn bar_spans(depth: nat, with_space: bool) -> Seq<StyledSpanView> {
    let bar = StyledSpanView { content: seq!['▌'], style: Style { fg: Some(bar_color(depth)), ..plain_style() } };
    if with_space { seq![bar, StyledSpanView { content: seq![' '], style: plain_style() }] } else { seq![bar] }
}

/// The spans of the blockquote markers of a source prefix, from depth `d` of `depth` on:
/// `"> "`, `">"`, or two spaces (a soft-wrapped line) each become a bar; and what is left.
pub open spec fn prefix_bars(s: Seq<char>, d: nat, depth: nat) -> (Seq<StyledSpanView>, Seq<char>)
    decreases depth - d,
{
    if d >= depth {
        (Seq::empty(), s)
    } else if s.len() >= 2 && s[0] == '>' && s[1] == ' ' {
        let (rest, left) = prefix_bars(s.skip(2), d + 1, depth);
        (bar_spans(d, true) + rest, left)
    } else if s.len() >= 1 && s[0] == '>' {
        let (rest, left) = prefix_bars(s.skip(1), d + 1, depth);
        (bar_spans(d, false) + rest, left)
    } else if s.len() >= 2 && s[0] == ' ' && s[1] == ' ' {
        let (rest, left) = prefix_bars(s.skip(2), d + 1, depth);
        (bar_spans(d, true) + rest, left)
    } else {
        (Seq::empty(), s)
    }
}

/// The check mark that replaces an `x` in a task marker.
pub open spec fn checked_mark(s: Seq<char>) -> Seq<char> {
    replaced(replaced(s, seq!['[', 'x', ']'], seq!['[', '✓', ']']), seq!['[', 'X', ']'], seq!['[', '✓', ']'])
}

/// A source prefix styled: blockquote markers as bars (up to `depth` of them), and the rest
/// (list markers, task markers with a check mark) in the prefix color.
pub open spec fn styled_prefix(prefix: Seq<char>, depth: nat) -> Seq<StyledSpanView> {
    let (bars, left) = prefix_bars(prefix, 0, depth);
    if left.len() > 0 {
        bars.push(StyledSpanView { content: checked_mark(left), style: Style { fg: Some(TermColor::Indexed(189)), ..plain_style() } })
    } else {
        bars
    }
}

/// Style a source prefix (see [`styled_prefix`]).
pub fn style_prefix(prefix: &str, blockquote_depth: usize) -> (r: Vec<StyledSpan>)
    ensures
        styled_view(r@) == styled_prefix(prefix@, blockquote_depth as nat),
{
    let v = chars_of(prefix);
    let mut spans: Vec<StyledSpan> = Vec::new();
    let mut pos: usize = 0;
    let mut depth: usize = 0;
    proof {
        reveal_strlit("▌");
        reveal_strlit(" ");
        assert(v@.skip(0) =~= v@);
    }
    let ghost goal = styled_prefix(prefix@, blockquote_depth as nat);
    let ghost full = prefix_bars(prefix@, 0, blockquote_depth as nat);
    while depth < blockquote_depth
        invariant
            v@ == prefix@,
            pos <= v@.len(),
            depth <= blockquote_depth,
            full == prefix_bars(prefix@, 0, blockquote_depth as nat),
            full.0 == styled_view(spans@) + prefix_bars(v@.skip(pos as int), depth as nat, blockquote_depth as nat).0,
            full.1 == prefix_bars(v@.skip(pos as int), depth as nat, blockquote_depth as nat).1,
        ensures
            pos <= v@.len(),
            full.0 == styled_view(spans@),
            full.1 == v@.skip(pos as int),
        decreases blockquote_depth - depth,
    {
        let ghost rest = v@.skip(pos as int);
        let color = TermColor::Indexed((202 + if depth < 5 { depth } else { 5 }) as u8);
        let step: usize = if v.len() - pos >= 2 && v[pos] == '>' && v[pos + 1] == ' ' {
            2
        } else if pos < v.len() && v[pos] == '>' {
            1
        } else if v.len() - pos >= 2 && v[pos] == ' ' && v[pos + 1] == ' ' {
            3
        } else {
            0
        };
        if step == 0 {
            proof {
                assert(prefix_bars(rest, depth as nat, blockquote_depth as nat) == (Seq::<StyledSpanView>::empty(), rest));
                assert(styled_view(spans@) + Seq::<StyledSpanView>::empty() =~= styled_view(spans@));
            }
            break;
        }
        proof {
            reveal_strlit("▌");
            reveal_strlit(" ");
            assert("▌"@ =~= seq!['▌']);
            assert(" "@ =~= seq![' ']);
        }
        let ghost before = styled_view(spans@);
        let bar = StyledSpan::styled("▌".to_owned(), Style::new().fg(color));
        spans.push(bar);
        let ghost mid = styled_view(spans@);
        assert(mid =~= before.push(bar@));
        if step != 1 {
            let sp = StyledSpan::raw(" ".to_owned());
            spans.push(sp);
            assert(styled_view(spans@) =~= mid.push(sp@));
        }
        let adv: usize = if step == 1 { 1 } else { 2 };
        proof {
            assert(bar@.style == Style { fg: Some(bar_color(depth as nat)), ..plain_style() });
            assert(styled_view(spans@) =~= before + bar_spans(depth as nat, step != 1));
            assert(rest.skip(adv as int) =~= v@.skip(pos + adv));
        }
        pos = pos + adv;
        depth = depth + 1;
    }

    let left = crate::text::string_of_range(&v, pos, v.len());
    proof { assert(v@.subrange(pos as int, v@.len() as int) =~= v@.skip(pos as int)); }
    if pos < v.len() {
        proof {
            reveal_strlit("[x]");
            reveal_strlit("[X]");
            reveal_strlit("[✓]");
            assert("[x]"@ =~= seq!['[', 'x', ']']);
            assert("[X]"@ =~= seq!['[', 'X', ']']);
            assert("[✓]"@ =~= seq!['[', '✓', ']']);
        }
        let lv = chars_of(left.as_str());
        let x = chars_of("[x]");
        let big_x = chars_of("[X]");
        let once = replace_from(&lv, &x, "[✓]");
        let once_v = chars_of(once.as_str());
        let twice = replace_from(&once_v, &big_x, "[✓]");
        proof {
            reveal_strlit("[x]");
            reveal_strlit("[X]");
            reveal_strlit("[✓]");
            assert("[x]"@ =~= seq!['[', 'x', ']']);
            assert("[X]"@ =~= seq!['[', 'X', ']']);
            assert("[✓]"@ =~= seq!['[', '✓', ']']);
        }
        let ghost before = styled_view(spans@);
        let s = StyledSpan::styled(twice, Style::new().fg(TermColor::Indexed(189)));
        spans.push(s);
        proof { assert(styled_view(spans@) =~= before.push(s@)); }
    }
    spans
}

/// The source prefix of a nesting after its first `k` containers: a blockquote writes `"> "`,
/// the innermost list item its marker as written (with its indentation, a space, and the
/// task marker), other containers nothing.
pub open spec fn source_prefix(n: Seq<MdContainerView>, last: int, k: int) -> Seq<char>
    decreases k,
{
    if k <= 0 {
        Seq::empty()
    } else {
        let prev = source_prefix(n, last, k - 1);
        match n[k - 1] {
            MdContainerView::Blockquote => prev + seq!['>', ' '],
            MdContainerView::ListItem(m) => if k - 1 == last {
                prev + repeat_seq(seq![' '], m.indent as nat) + m.original + seq![' '] + match m.task {
                    Some(true) => seq!['[', 'x', ']', ' '],
                    Some(false) => seq!['[', ' ', ']', ' '],
                    None => Seq::<char>::empty(),
                }
            } else {
                prev
            },
            MdContainerView::List(_) => prev,
        }
    }
}

/// Build the source prefix of a nesting (see [`source_prefix`]).
pub fn build_source_prefix(nesting: &Vec<MdContainer>) -> (r: String)
    ensures
        r@ == source_prefix(nesting_view(nesting@), last_item_index(nesting_view(nesting@)), nesting@.len() as int),
{
    let ghost nv = nesting_view(nesting@);
    let ghost last = last_item_index(nv);
    let last_idx = last_list_item(nesting);
    let mut prefix = String::new();
    for i in 0..nesting.len()
        invariant
            nv == nesting_view(nesting@),
            match last_idx {
                Some(k) => k == last,
                None => last == -1,
            },
            last == last_item_index(nv),
            prefix@ == source_prefix(nv, last, i as int),
    {
        proof {
            reveal_strlit("> ");
            reveal_strlit(" ");
            reveal_strlit("[x] ");
            reveal_strlit("[ ] ");
            assert("> "@ =~= seq!['>', ' ']);
            assert(" "@ =~= seq![' ']);
            assert("[x] "@ =~= seq!['[', 'x', ']', ' ']);
            assert("[ ] "@ =~= seq!['[', ' ', ']', ' ']);
        }
        proof { assert(nv[i as int] == nesting@[i as int]@); }
        match &nesting[i] {
            MdContainer::Blockquote(_) => {
                prefix.append("> ");
            },
            MdContainer::ListItem(marker) => {
                let is_last = match last_idx {
                    Some(k) => k == i,
                    None => false,
                };
                if is_last {
                    prefix.append(repeat_str(" ", marker.indent).as_str());
                    prefix.append(marker.original.as_str());
                    prefix.push(' ');
                    match marker.task {
                        Some(checked) => {
                            if checked {
                                prefix.append("[x] ");
                            } else {
                                prefix.append("[ ] ");
                            }
                        },
                        None => {},
                    }
                }
            },
            MdContainer::List(_) => {},
        }
    }
    prefix
}

} // verus!
