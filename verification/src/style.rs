//! Terminal styles for output lines: colors, text modifiers, themes, and the styling of
//! each span of a line by its modifiers.
use vstd::prelude::*;

use crate::lines::{Line, LineKind, LineView, LineKindView};
use crate::mapper::{Mapper, StyledMapper};
use crate::modifier::Modifier;
use crate::span::{Span, SpanView, spans_view};

verus! {

/// A terminal color.
#[derive(Debug, Clone, Copy, PartialEq, Eq, Structural)]
pub enum TermColor {
    Reset,
    Black,
    Red,
    Green,
    Yellow,
    Blue,
    Magenta,
    Cyan,
    Gray,
    DarkGray,
    LightRed,
    LightGreen,
    LightYellow,
    LightBlue,
    LightMagenta,
    LightCyan,
    White,
    Rgb(u8, u8, u8),
    Indexed(u8),
}

/// Text modifier flags of a style, as bits.
pub struct TextModifier;

impl TextModifier {
    pub const BOLD: u16 = 1 << 0;
    pub const DIM: u16 = 1 << 1;
    pub const ITALIC: u16 = 1 << 2;
    pub const UNDERLINED: u16 = 1 << 3;
    pub const SLOW_BLINK: u16 = 1 << 4;
    pub const RAPID_BLINK: u16 = 1 << 5;
    pub const REVERSED: u16 = 1 << 6;
    pub const HIDDEN: u16 = 1 << 7;
    pub const CROSSED_OUT: u16 = 1 << 8;
}

/// A terminal style: colors where set, and the text modifiers it adds and removes.
#[derive(Debug, Clone, Copy, PartialEq, Eq, Structural)]
pub struct Style {
    pub fg: Option<TermColor>,
    pub bg: Option<TermColor>,
    pub add_modifier: u16,
    pub sub_modifier: u16,
}

/// The style that sets nothing.
pub open spec fn plain_style() -> Style {
    Style { fg: None, bg: None, add_modifier: 0, sub_modifier: 0 }
}

/// `a` with `b` laid over it: `b`'s colors where it sets them, `b`'s modifiers added and
/// removed on top of `a`'s.
pub open spec fn patched(a: Style, b: Style) -> Style {
    Style {
        fg: if b.fg is Some { b.fg } else { a.fg },
        bg: if b.bg is Some { b.bg } else { a.bg },
        add_modifier: (a.add_modifier & !b.sub_modifier) | b.add_modifier,
        sub_modifier: (a.sub_modifier & !b.add_modifier) | b.sub_modifier,
    }
}

/// Laying the style that sets nothing over a style, or a style over it, gives that style;
/// laying `b` and then `c` over `a` is laying over `a` the style of `c` laid over `b`.
pub proof fn patching_laws(a: Style, b: Style, c: Style)
    ensures
        patched(a, plain_style()) == a,
        patched(plain_style(), a) == a,
        patched(patched(a, b), c) == patched(a, patched(b, c)),
        patched(patched(a, b), b) == patched(a, b),
{
    let (aa, asub, ba, bsub, ca, csub) = (a.add_modifier, a.sub_modifier, b.add_modifier, b.sub_modifier, c.add_modifier, c.sub_modifier);
    assert(aa & !0u16 | 0u16 == aa && asub & !0u16 | 0u16 == asub) by (bit_vector);
    assert(0u16 & !asub | aa == aa && 0u16 & !aa | asub == asub) by (bit_vector);
    assert(((aa & !bsub) | ba) & !csub | ca == (aa & !((bsub & !ca) | csub)) | ((ba & !csub) | ca)) by (bit_vector);
    assert(((asub & !ba) | bsub) & !ca | csub == (asub & !((ba & !csub) | ca)) | ((bsub & !ca) | csub)) by (bit_vector);
    assert(((aa & !bsub) | ba) & !bsub | ba == (aa & !bsub) | ba) by (bit_vector);
    assert(((asub & !ba) | bsub) & !ba | bsub == (asub & !ba) | bsub) by (bit_vector);
}

/// `s` adding the modifiers `m` (and no longer removing them).
pub open spec fn adding(s: Style, m: u16) -> Style {
    Style { sub_modifier: s.sub_modifier & !m, add_modifier: s.add_modifier | m, ..s }
}

impl Style {
    /// The style that sets nothing.
    pub fn new() -> (s: Style)
        ensures
            s == plain_style(),
    {
        Style { fg: None, bg: None, add_modifier: 0, sub_modifier: 0 }
    }

    /// This style with foreground color `c`.
    pub fn fg(self, c: TermColor) -> (s: Style)
        ensures
            s == (Style { fg: Some(c), ..self }),
    {
        Style { fg: Some(c), ..self }
    }

    /// This style with background color `c`.
    pub fn bg(self, c: TermColor) -> (s: Style)
        ensures
            s == (Style { bg: Some(c), ..self }),
    {
        Style { bg: Some(c), ..self }
    }

    /// This style adding the modifiers `m`.
    pub fn add_modifier(self, m: u16) -> (s: Style)
        ensures
            s == adding(self, m),
    {
        Style { sub_modifier: self.sub_modifier & !m, add_modifier: self.add_modifier | m, ..self }
    }

    /// This style, underlined.
    pub fn underlined(self) -> (s: Style)
        ensures
            s == adding(self, TextModifier::UNDERLINED),
    {
        self.add_modifier(TextModifier::UNDERLINED)
    }

    /// This style with `other` laid over it (see [`patched`]).
    pub fn patch(self, other: Style) -> (s: Style)
        ensures
            s == patched(self, other),
    {
        Style {
            fg: if other.fg.is_some() { other.fg } else { self.fg },
            bg: if other.bg.is_some() { other.bg } else { self.bg },
            add_modifier: (self.add_modifier & !other.sub_modifier) | other.add_modifier,
            sub_modifier: (self.sub_modifier & !other.add_modifier) | other.sub_modifier,
        }
    }
}

/// Text with a style.
pub struct StyledSpan {
    pub content: String,
    pub style: Style,
}

/// The mathematical value of a [`StyledSpan`].
pub struct StyledSpanView {
    pub content: Seq<char>,
    pub style: Style,
}

impl View for StyledSpan {
    type V = StyledSpanView;

    open spec fn view(&self) -> StyledSpanView {
        StyledSpanView { content: self.content@, style: self.style }
    }
}

/// The views of styled spans.
pub open spec fn styled_view(s: Seq<StyledSpan>) -> Seq<StyledSpanView> {
    s.map_values(|x: StyledSpan| x@)
}

impl StyledSpan {
    /// Text with the style that sets nothing.
    pub fn raw(content: String) -> (s: StyledSpan)
        ensures
            s@ == (StyledSpanView { content: content@, style: plain_style() }),
    {
        StyledSpan { content, style: Style::new() }
    }

    /// Text with a style.
    pub fn styled(content: String, style: Style) -> (s: StyledSpan)
        ensures
            s@ == (StyledSpanView { content: content@, style }),
    {
        StyledSpan { content, style }
    }
}

/// Adding modifiers to a style that adds and removes none: it adds exactly them.
pub proof fn lemma_adding_to_none(m: u16)
    ensures
        0u16 | m == m,
        0u16 & !m == 0,
{
    assert(0u16 | m == m && 0u16 & !m == 0) by (bit_vector);
}

/// The default blockquote color at a depth: six colors in turn.
pub open spec fn default_blockquote_color(depth: usize) -> TermColor {
    let k = depth % 6;
    if k == 0 { TermColor::Indexed(202) } else if k == 1 { TermColor::Indexed(203) } else if k == 2 { TermColor::Indexed(204) }
    else if k == 3 { TermColor::Indexed(205) } else if k == 4 { TermColor::Indexed(206) } else { TermColor::Indexed(207) }
}

/// Colors and styles for rendering lines, on top of the symbols of a [`Mapper`]. Every
/// method has a default; implement the trait to change some of them.
pub trait Theme: Mapper {
    /// Blockquote color for a nesting depth (0-indexed, cycles through a palette of six).
    fn blockquote_color(&self, depth: usize) -> (r: TermColor)
        default_ensures
            r == default_blockquote_color(depth),
    {
        let k = depth % 6;
        if k == 0 { TermColor::Indexed(202) } else if k == 1 { TermColor::Indexed(203) } else if k == 2 { TermColor::Indexed(204) }
        else if k == 3 { TermColor::Indexed(205) } else if k == 4 { TermColor::Indexed(206) } else { TermColor::Indexed(207) }
    }

    /// Link background color.
    fn link_bg(&self) -> (r: TermColor)
        default_ensures
            r == TermColor::Indexed(237),
    {
        TermColor::Indexed(237)
    }

    /// Link foreground color.
    fn link_fg(&self) -> (r: TermColor)
        default_ensures
            r == TermColor::Indexed(4),
    {
        TermColor::Indexed(4)
    }

    /// TermColor of list markers and other prefixes.
    fn prefix_color(&self) -> (r: TermColor)
        default_ensures
            r == TermColor::Indexed(222),
    {
        TermColor::Indexed(222)
    }

    /// TermColor of emphasized text.
    fn emphasis_color(&self) -> (r: TermColor)
        default_ensures
            r == TermColor::Indexed(220),
    {
        TermColor::Indexed(220)
    }

    /// Code background color.
    fn code_bg(&self) -> (r: TermColor)
        default_ensures
            r == TermColor::Indexed(236),
    {
        TermColor::Indexed(236)
    }

    /// Code foreground color.
    fn code_fg(&self) -> (r: TermColor)
        default_ensures
            r == TermColor::Indexed(203),
    {
        TermColor::Indexed(203)
    }

    /// Horizontal rule color.
    fn hr_color(&self) -> (r: TermColor)
        default_ensures
            r == TermColor::Indexed(240),
    {
        TermColor::Indexed(240)
    }

    /// Table border color.
    fn table_border_color(&self) -> (r: TermColor)
        default_ensures
            r == TermColor::Indexed(240),
    {
        TermColor::Indexed(240)
    }

    /// Table header text color.
    fn table_header_color(&self) -> (r: TermColor)
        default_ensures
            r == TermColor::Indexed(255),
    {
        TermColor::Indexed(255)
    }

    /// Style of inline code and code blocks.
    fn code_style(&self) -> (r: Style)
        default_ensures
            r.fg is Some,
            r.bg is Some,
            r.add_modifier == 0,
            r.sub_modifier == 0,
    {
        Style::new().fg(self.code_fg()).bg(self.code_bg())
    }

    /// Style of emphasized (italic) text.
    fn emphasis_style(&self) -> (r: Style)
        default_ensures
            r.fg is Some,
            r.bg is None,
            r.add_modifier == TextModifier::ITALIC,
            r.sub_modifier == 0,
    {
        proof { lemma_adding_to_none(TextModifier::ITALIC); }
        Style::new().add_modifier(TextModifier::ITALIC).fg(self.emphasis_color())
    }

    /// Style of strongly emphasized (bold) text.
    fn strong_emphasis_style(&self) -> (r: Style)
        default_ensures
            r.fg is Some,
            r.bg is None,
            r.add_modifier == TextModifier::BOLD,
            r.sub_modifier == 0,
    {
        proof { lemma_adding_to_none(TextModifier::BOLD); }
        Style::new().add_modifier(TextModifier::BOLD).fg(self.emphasis_color())
    }

    /// Style of link URLs.
    fn link_url_style(&self) -> (r: Style)
        default_ensures
            r.fg is Some,
            r.bg is Some,
            r.add_modifier == TextModifier::UNDERLINED,
            r.sub_modifier == 0,
    {
        proof { lemma_adding_to_none(TextModifier::UNDERLINED); }
        Style::new().fg(self.link_fg()).bg(self.link_bg()).underlined()
    }

    /// Style of link descriptions.
    fn link_description_style(&self) -> (r: Style)
        default_ensures
            r.fg is Some,
            r.bg is Some,
            r.add_modifier == TextModifier::UNDERLINED,
            r.sub_modifier == 0,
    {
        proof { lemma_adding_to_none(TextModifier::UNDERLINED); }
        Style::new().fg(self.link_fg()).bg(self.link_bg()).underlined()
    }

    /// Style of link brackets.
    fn link_wrapper_style(&self) -> (r: Style)
        default_ensures
            r.fg is Some,
            r.bg is None,
            r.add_modifier == 0,
            r.sub_modifier == 0,
    {
        Style::new().fg(self.link_bg())
    }

    /// Style of horizontal rules.
    fn hr_style(&self) -> (r: Style)
        default_ensures
            r.fg is Some,
            r.bg is None,
            r.add_modifier == 0,
            r.sub_modifier == 0,
    {
        Style::new().fg(self.hr_color())
    }

    /// Style of table borders.
    fn table_border_style(&self) -> (r: Style)
        default_ensures
            r.fg is Some,
            r.bg is None,
            r.add_modifier == 0,
            r.sub_modifier == 0,
    {
        Style::new().fg(self.table_border_color())
    }

    /// Style of table header cells.
    fn table_header_style(&self) -> (r: Style)
        default_ensures
            r.fg is Some,
            r.bg is None,
            r.add_modifier == TextModifier::BOLD,
            r.sub_modifier == 0,
    {
        proof { lemma_adding_to_none(TextModifier::BOLD); }
        Style::new().add_modifier(TextModifier::BOLD).fg(self.table_header_color())
    }

    /// Style of list markers and prefixes.
    fn prefix_style(&self) -> (r: Style)
        default_ensures
            r.fg is Some,
            r.bg is None,
            r.add_modifier == 0,
            r.sub_modifier == 0,
    {
        Style::new().fg(self.prefix_color())
    }

    /// Style of the blockquote bar at a nesting depth.
    fn blockquote_style(&self, depth: usize) -> (r: Style)
        default_ensures
            r.fg is Some,
            r.bg is None,
            r.add_modifier == 0,
            r.sub_modifier == 0,
    {
        Style::new().fg(self.blockquote_color(depth))
    }

    /// TermColor of struck-through text.
    fn strikethrough_color(&self) -> (r: TermColor)
        default_ensures
            r == TermColor::Indexed(245),
    {
        TermColor::Indexed(245)
    }

    /// Style of struck-through text.
    fn strikethrough_style(&self) -> (r: Style)
        default_ensures
            r.fg is Some,
            r.bg is None,
            r.add_modifier == (TextModifier::CROSSED_OUT | TextModifier::DIM),
            r.sub_modifier == 0,
    {
        proof { lemma_adding_to_none(TextModifier::CROSSED_OUT | TextModifier::DIM); }
        Style::new().add_modifier(TextModifier::CROSSED_OUT | TextModifier::DIM).fg(self.strikethrough_color())
    }
}

/// The default theme: the symbols of [`StyledMapper`] (text decorators removed, since styles
/// replace them) and the default colors.
#[derive(Debug, Clone, Copy, Default)]
pub struct DefaultTheme;

impl Mapper for DefaultTheme {
    fn link_desc_open(&self) -> (r: &str)
        ensures
            r@ == "["@,
    {
        StyledMapper.link_desc_open()
    }

    fn link_desc_close(&self) -> (r: &str)
        ensures
            r@ == "]"@,
    {
        StyledMapper.link_desc_close()
    }

    fn link_url_open(&self) -> (r: &str)
        ensures
            r@ == "("@,
    {
        StyledMapper.link_url_open()
    }

    fn link_url_close(&self) -> (r: &str)
        ensures
            r@ == ")"@,
    {
        StyledMapper.link_url_close()
    }

    fn blockquote_bar(&self) -> (r: &str)
        ensures
            r@ == "▌ "@,
    {
        StyledMapper.blockquote_bar()
    }

    fn horizontal_rule_char(&self) -> (r: &str)
        ensures
            r@ == "─"@,
    {
        StyledMapper.horizontal_rule_char()
    }

    fn task_checked(&self) -> (r: &str)
        ensures
            r@ == "[✓] "@,
    {
        StyledMapper.task_checked()
    }

    fn table_vertical(&self) -> (r: &str)
        ensures
            r@ == "│"@,
    {
        StyledMapper.table_vertical()
    }

    fn table_horizontal(&self) -> (r: &str)
        ensures
            r@ == "─"@,
    {
        StyledMapper.table_horizontal()
    }

    fn table_top_left(&self) -> (r: &str)
        ensures
            r@ == "┌"@,
    {
        StyledMapper.table_top_left()
    }

    fn table_top_right(&self) -> (r: &str)
        ensures
            r@ == "┐"@,
    {
        StyledMapper.table_top_right()
    }

    fn table_bottom_left(&self) -> (r: &str)
        ensures
            r@ == "└"@,
    {
        StyledMapper.table_bottom_left()
    }

    fn table_bottom_right(&self) -> (r: &str)
        ensures
            r@ == "┘"@,
    {
        StyledMapper.table_bottom_right()
    }

    fn table_top_junction(&self) -> (r: &str)
        ensures
            r@ == "┬"@,
    {
        StyledMapper.table_top_junction()
    }

    fn table_bottom_junction(&self) -> (r: &str)
        ensures
            r@ == "┴"@,
    {
        StyledMapper.table_bottom_junction()
    }

    fn table_left_junction(&self) -> (r: &str)
        ensures
            r@ == "├"@,
    {
        StyledMapper.table_left_junction()
    }

    fn table_right_junction(&self) -> (r: &str)
        ensures
            r@ == "┤"@,
    {
        StyledMapper.table_right_junction()
    }

    fn table_cross(&self) -> (r: &str)
        ensures
            r@ == "┼"@,
    {
        StyledMapper.table_cross()
    }

    fn emphasis_open(&self) -> (r: &str)
        ensures
            r@ == ""@,
    {
        StyledMapper.emphasis_open()
    }

    fn emphasis_close(&self) -> (r: &str)
        ensures
            r@ == ""@,
    {
        StyledMapper.emphasis_close()
    }

    fn strong_open(&self) -> (r: &str)
        ensures
            r@ == ""@,
    {
        StyledMapper.strong_open()
    }

    fn strong_close(&self) -> (r: &str)
        ensures
            r@ == ""@,
    {
        StyledMapper.strong_close()
    }

    fn code_open(&self) -> (r: &str)
        ensures
            r@ == ""@,
    {
        StyledMapper.code_open()
    }

    fn code_close(&self) -> (r: &str)
        ensures
            r@ == ""@,
    {
        StyledMapper.code_close()
    }

    fn strikethrough_open(&self) -> (r: &str)
        ensures
            r@ == ""@,
    {
        StyledMapper.strikethrough_open()
    }

    fn strikethrough_close(&self) -> (r: &str)
        ensures
            r@ == ""@,
    {
        StyledMapper.strikethrough_close()
    }
}

impl Theme for DefaultTheme {}

/// The styles of a theme, taken once for rendering: the blockquote styles of the first
/// depths, and the other styles.
pub struct Palette {
    pub hide_urls: bool,
    pub blockquote: Vec<Style>,
    pub prefix: Style,
    pub table_border: Style,
    pub hr: Style,
    pub code: Style,
    pub link_wrapper: Style,
    pub link_url: Style,
    pub table_header: Style,
    pub link_description: Style,
    pub emphasis: Style,
    pub strong_emphasis: Style,
    pub strikethrough: Style,
}

/// `p` holds what the methods of `theme` return: each style is a result that the theme's
/// method may give (for the themes of this crate, exactly the style that its contract
/// names), with the blockquote styles of the depths below `depths`.
pub open spec fn theme_gives<T: Theme>(theme: &T, p: Palette, depths: usize) -> bool {
    &&& call_ensures(T::hide_urls, (theme,), p.hide_urls)
    &&& p.blockquote@.len() == depths
    &&& forall|d: int| 0 <= d < depths ==> call_ensures(T::blockquote_style, (theme, d as usize), #[trigger] p.blockquote@[d])
    &&& call_ensures(T::prefix_style, (theme,), p.prefix)
    &&& call_ensures(T::table_border_style, (theme,), p.table_border)
    &&& call_ensures(T::hr_style, (theme,), p.hr)
    &&& call_ensures(T::code_style, (theme,), p.code)
    &&& call_ensures(T::link_wrapper_style, (theme,), p.link_wrapper)
    &&& call_ensures(T::link_url_style, (theme,), p.link_url)
    &&& call_ensures(T::table_header_style, (theme,), p.table_header)
    &&& call_ensures(T::link_description_style, (theme,), p.link_description)
    &&& call_ensures(T::emphasis_style, (theme,), p.emphasis)
    &&& call_ensures(T::strong_emphasis_style, (theme,), p.strong_emphasis)
    &&& call_ensures(T::strikethrough_style, (theme,), p.strikethrough)
}

impl Palette {
    /// The styles of `theme`, with blockquote styles for the depths below `depths`.
    pub fn of<T: Theme>(theme: &T, depths: usize) -> (p: Palette)
        ensures
            theme_gives(theme, p, depths),
    {
        let mut blockquote: Vec<Style> = Vec::new();
        for d in 0..depths
            invariant
                blockquote@.len() == d,
                forall|k: int| 0 <= k < d ==> call_ensures(T::blockquote_style, (theme, k as usize), #[trigger] blockquote@[k]),
        {
            blockquote.push(theme.blockquote_style(d));
        }
        Palette {
            hide_urls: theme.hide_urls(),
            blockquote,
            prefix: theme.prefix_style(),
            table_border: theme.table_border_style(),
            hr: theme.hr_style(),
            code: theme.code_style(),
            link_wrapper: theme.link_wrapper_style(),
            link_url: theme.link_url_style(),
            table_header: theme.table_header_style(),
            link_description: theme.link_description_style(),
            emphasis: theme.emphasis_style(),
            strong_emphasis: theme.strong_emphasis_style(),
            strikethrough: theme.strikethrough_style(),
        }
    }
}

/// The blockquote style at `depth`, the plain style beyond the palette.
pub open spec fn bar_style(p: Palette, depth: nat) -> Style {
    if depth < p.blockquote@.len() { p.blockquote@[depth as int] } else { plain_style() }
}

/// The style of text by its emphasis and link modifiers, over the header style in a table
/// header row.
pub open spec fn text_style(m: Modifier, is_header: bool, p: Palette) -> Style {
    let s0 = if is_header { p.table_header } else { plain_style() };
    let s1 = if m.has(Modifier::LINK_DESCRIPTION) { patched(s0, p.link_description) } else { s0 };
    let s2 = if m.has(Modifier::EMPHASIS) { patched(s1, p.emphasis) } else { s1 };
    let s3 = if m.has(Modifier::STRONG_EMPHASIS) { patched(s2, p.strong_emphasis) } else { s2 };
    let s4 = if m.has(Modifier::STRIKETHROUGH) { patched(s3, p.strikethrough) } else { s3 };
    if m.has(Modifier::LINK) { patched(s4, p.link_description) } else { s4 }
}

/// A span of a line, styled: hidden URLs become empty; blockquote bars, list markers, table
/// borders, rules, code, link brackets and link URLs get their own styles; other text gets
/// [`text_style`].
pub open spec fn styled(v: SpanView, depth: nat, is_header: bool, is_code: bool, p: Palette) -> StyledSpanView {
    let m = v.modifiers;
    let c = v.content;
    if p.hide_urls && m.is_hideable_url() {
        StyledSpanView { content: Seq::empty(), style: plain_style() }
    } else if m.has(Modifier::BLOCKQUOTE_BAR) {
        StyledSpanView { content: c, style: bar_style(p, depth) }
    } else if m.has(Modifier::LIST_MARKER) {
        StyledSpanView { content: c, style: p.prefix }
    } else if m.has(Modifier::TABLE_BORDER) {
        StyledSpanView { content: c, style: p.table_border }
    } else if m.has(Modifier::HORIZONTAL_RULE) {
        StyledSpanView { content: c, style: p.hr }
    } else if m.has(Modifier::CODE) || is_code {
        StyledSpanView { content: c, style: p.code }
    } else if m.has(Modifier::LINK_DESCRIPTION_WRAPPER) || m.has(Modifier::LINK_URL_WRAPPER) {
        StyledSpanView { content: c, style: p.link_wrapper }
    } else if m.has(Modifier::LINK_URL) {
        StyledSpanView { content: c, style: p.link_url }
    } else {
        StyledSpanView { content: c, style: text_style(m, is_header, p) }
    }
}

/// The span counts as a blockquote bar (one level deeper for the bars after it).
pub open spec fn counts_as_bar(v: SpanView, p: Palette) -> bool {
    !(p.hide_urls && v.modifiers.is_hideable_url()) && v.modifiers.has(Modifier::BLOCKQUOTE_BAR)
}

/// The first `n` spans of a line styled, and the blockquote depth after them.
pub open spec fn render_fold(spans: Seq<SpanView>, is_header: bool, is_code: bool, p: Palette, n: int) -> (Seq<StyledSpanView>, nat)
    decreases n,
{
    if n <= 0 {
        (Seq::empty(), 0)
    } else {
        let (out, depth) = render_fold(spans, is_header, is_code, p, n - 1);
        let v = spans[n - 1];
        (out.push(styled(v, depth, is_header, is_code, p)), if counts_as_bar(v, p) { depth + 1 } else { depth })
    }
}

/// A line styled span by span; blockquote bars take the styles of successive depths.
pub open spec fn rendered_line(l: LineView, p: Palette) -> Seq<StyledSpanView> {
    let is_header = l.kind == LineKindView::TableRow(true);
    let is_code = l.kind is CodeBlock;
    render_fold(l.spans, is_header, is_code, p, l.spans.len() as int).0
}

/// Style one span (see [`styled`]); updates the blockquote depth.
pub fn node_to_span(node: Span, current_bq_depth: usize, is_table_header: bool, is_code_block: bool, p: &Palette, bq_depth_out: &mut usize) -> (r: StyledSpan)
    requires
        current_bq_depth < usize::MAX,
    ensures
        r@ == styled(node@, current_bq_depth as nat, is_table_header, is_code_block, *p),
        *final(bq_depth_out) == if counts_as_bar(node@, *p) { (current_bq_depth + 1) as usize } else { *old(bq_depth_out) },
{
    let m = node.modifiers;
    let content = node.content;
    if p.hide_urls && m.hideable_url() {
        return StyledSpan::raw(String::new());
    }
    if m.contains(Modifier::BLOCKQUOTE_BAR) {
        *bq_depth_out = current_bq_depth + 1;
        let style = if current_bq_depth < p.blockquote.len() { p.blockquote[current_bq_depth] } else { Style::new() };
        return StyledSpan::styled(content, style);
    }
    if m.contains(Modifier::LIST_MARKER) {
        return StyledSpan::styled(content, p.prefix);
    }
    if m.contains(Modifier::TABLE_BORDER) {
        return StyledSpan::styled(content, p.table_border);
    }
    if m.contains(Modifier::HORIZONTAL_RULE) {
        return StyledSpan::styled(content, p.hr);
    }
    if m.contains(Modifier::CODE) || is_code_block {
        return StyledSpan::styled(content, p.code);
    }
    if m.contains(Modifier::LINK_DESCRIPTION_WRAPPER) || m.contains(Modifier::LINK_URL_WRAPPER) {
        return StyledSpan::styled(content, p.link_wrapper);
    }
    if m.contains(Modifier::LINK_URL) {
        return StyledSpan::styled(content, p.link_url);
    }
    let mut style = if is_table_header { p.table_header } else { Style::new() };
    if m.contains(Modifier::LINK_DESCRIPTION) {
        style = style.patch(p.link_description);
    }
    if m.contains(Modifier::EMPHASIS) {
        style = style.patch(p.emphasis);
    }
    if m.contains(Modifier::STRONG_EMPHASIS) {
        style = style.patch(p.strong_emphasis);
    }
    if m.contains(Modifier::STRIKETHROUGH) {
        style = style.patch(p.strikethrough);
    }
    if m.contains(Modifier::LINK) {
        style = style.patch(p.link_description);
    }
    StyledSpan::styled(content, style)
}

/// Style a line with a palette (see [`rendered_line`]).
pub fn render_line_with(md_line: Line, p: &Palette) -> (r: Vec<StyledSpan>)
    ensures
        styled_view(r@) == rendered_line(md_line@, *p),
{
    let ghost lv = md_line@;
    let Line { spans, kind } = md_line;
    let is_table_header = match kind {
        LineKind::TableRow { is_header } => is_header,
        _ => false,
    };
    let is_code_block = match kind {
        LineKind::CodeBlock { .. } => true,
        _ => false,
    };
    let mut bq_depth: usize = 0;
    let mut out: Vec<StyledSpan> = Vec::new();
    let n = spans.len();
    for i in 0..n
        invariant
            n == spans@.len(),
            lv.spans == spans_view(spans@),
            is_table_header == (lv.kind == LineKindView::TableRow(true)),
            is_code_block == (lv.kind is CodeBlock),
            bq_depth <= i,
            (styled_view(out@), bq_depth as nat) == render_fold(lv.spans, is_table_header, is_code_block, *p, i as int),
    {
        let node = spans[i].copy();
        proof { assert(lv.spans[i as int] == spans@[i as int]@); }
        let mut next_depth = bq_depth;
        let s = node_to_span(node, bq_depth, is_table_header, is_code_block, p, &mut next_depth);
        let ghost o = out@;
        out.push(s);
        proof { assert(styled_view(out@) =~= styled_view(o).push(s@)); }
        bq_depth = next_depth;
    }
    out
}

/// Convert a line to styled spans with the styles of `theme`.
pub fn render_line<T: Theme>(md_line: Line, theme: &T) -> (r: Vec<StyledSpan>)
    ensures
        exists|p: Palette| theme_gives(theme, p, md_line@.spans.len() as usize) && styled_view(r@) == rendered_line(md_line@, p),
{
    let p = Palette::of(theme, md_line.spans.len());
    render_line_with(md_line, &p)
}

} // verus!
