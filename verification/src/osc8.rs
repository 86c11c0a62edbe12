//! Hyperlinks for terminals that support OSC 8: styled text between the escape sequences
//! that open and close a link, with the styles written as ANSI escape sequences by crossterm.
use vstd::prelude::*;

use crate::lines::decimal;
use crate::style::{TermColor, Style, StyledSpan, StyledSpanView, TextModifier, styled_view};
use crate::width::{display_width, str_width};
use crossterm::style::Color as CtColor;
use crossterm::style::Attribute as CtAttribute;

verus! {

#[verifier::external_type_specification]
#[verifier::external_body]
pub struct ExFmtError(std::fmt::Error);

#[verifier::external_type_specification]
#[verifier::external_body]
pub struct ExCrosstermColor(crossterm::style::Color);

#[verifier::external_type_specification]
#[verifier::external_body]
pub struct ExCrosstermAttribute(crossterm::style::Attribute);

/// A styled text could not be written as escape sequences.
#[derive(Debug)]
pub struct RenderError;

/// A text attribute, in the order in which crossterm writes attributes.
#[derive(Debug, Clone, Copy, PartialEq, Eq, Structural)]
pub enum TextAttribute {
    Bold,
    Dim,
    Italic,
    Underlined,
    SlowBlink,
    RapidBlink,
    Reverse,
    Hidden,
    CrossedOut,
}

/// The attributes in the order in which crossterm writes them.
pub open spec fn attribute_order() -> Seq<TextAttribute> {
    seq![
        TextAttribute::Bold, TextAttribute::Dim, TextAttribute::Italic, TextAttribute::Underlined, TextAttribute::SlowBlink,
        TextAttribute::RapidBlink, TextAttribute::Reverse, TextAttribute::Hidden, TextAttribute::CrossedOut,
    ]
}

/// The SGR parameter of an attribute.
pub open spec fn sgr(a: TextAttribute) -> char {
    match a {
        TextAttribute::Bold => '1',
        TextAttribute::Dim => '2',
        TextAttribute::Italic => '3',
        TextAttribute::Underlined => '4',
        TextAttribute::SlowBlink => '5',
        TextAttribute::RapidBlink => '6',
        TextAttribute::Reverse => '7',
        TextAttribute::Hidden => '8',
        TextAttribute::CrossedOut => '9',
    }
}

/// A control sequence: `ESC [`, the parameters, and `m`.
pub open spec fn csi(code: Seq<char>) -> Seq<char> {
    seq!['\u{1b}', '['] + code + seq!['m']
}

/// The attribute sequences of the first `k` attributes of crossterm's order that `attrs`
/// holds.
pub open spec fn attribute_run(attrs: Seq<TextAttribute>, k: int) -> Seq<char>
    decreases k,
{
    if k <= 0 {
        Seq::empty()
    } else {
        let a = attribute_order()[k - 1];
        attribute_run(attrs, k - 1) + if attrs.contains(a) { csi(seq![sgr(a)]) } else { Seq::<char>::empty() }
    }
}

/// What crossterm writes for a set of attributes: one sequence per attribute, in its order.
pub open spec fn attributes_text(attrs: Seq<TextAttribute>) -> Seq<char> {
    attribute_run(attrs, 9)
}

/// The color number of a named color in the 256-color palette.
pub open spec fn palette_number(c: TermColor) -> nat {
    match c {
        TermColor::Black => 0,
        TermColor::Red => 1,
        TermColor::Green => 2,
        TermColor::Yellow => 3,
        TermColor::Blue => 4,
        TermColor::Magenta => 5,
        TermColor::Cyan => 6,
        TermColor::Gray => 7,
        TermColor::DarkGray => 8,
        TermColor::LightRed => 9,
        TermColor::LightGreen => 10,
        TermColor::LightYellow => 11,
        TermColor::LightBlue => 12,
        TermColor::LightMagenta => 13,
        TermColor::LightCyan => 14,
        TermColor::White => 15,
        TermColor::Indexed(i) => i as nat,
        _ => 0,
    }
}

/// The color parameters after the foreground or background selector.
pub open spec fn color_params(c: TermColor) -> Seq<char> {
    match c {
        TermColor::Rgb(r, g, b) => seq!['2', ';'] + decimal(r as nat) + seq![';'] + decimal(g as nat) + seq![';'] + decimal(b as nat),
        _ => seq!['5', ';'] + decimal(palette_number(c)),
    }
}

/// The SGR parameters of a foreground (`layer` `'3'`) or background (`layer` `'4'`) color.
pub open spec fn color_code(c: TermColor, layer: char) -> Seq<char> {
    match c {
        TermColor::Reset => seq![layer, '9'],
        _ => seq![layer, '8', ';'] + color_params(c),
    }
}

/// A color as crossterm's color: the named colors of the 16-color palette (normal and
/// bright), the 256-color palette, RGB, and reset.
#[verifier::external_body]
fn crossterm_color(c: TermColor) -> crossterm::style::Color {
    match c {
        TermColor::Reset => CtColor::Reset, TermColor::Black => CtColor::Black, TermColor::Red => CtColor::DarkRed,
        TermColor::Green => CtColor::DarkGreen, TermColor::Yellow => CtColor::DarkYellow, TermColor::Blue => CtColor::DarkBlue,
        TermColor::Magenta => CtColor::DarkMagenta, TermColor::Cyan => CtColor::DarkCyan, TermColor::Gray => CtColor::Grey,
        TermColor::DarkGray => CtColor::DarkGrey, TermColor::LightRed => CtColor::Red, TermColor::LightGreen => CtColor::Green,
        TermColor::LightYellow => CtColor::Yellow, TermColor::LightBlue => CtColor::Blue, TermColor::LightMagenta => CtColor::Magenta,
        TermColor::LightCyan => CtColor::Cyan, TermColor::White => CtColor::White, TermColor::Rgb(r, g, b) => CtColor::Rgb { r, g, b },
        TermColor::Indexed(i) => CtColor::AnsiValue(i),
    }
}

/// `crossterm::style::SetForegroundColor(c).write_ansi` into a new `String`.
///
/// Trusted: what is written is the control sequence of the foreground code of the color, or
/// one with no code at all when crossterm's check of `NO_COLOR` turned colors off (crossterm's
/// `Display` of `Colored`). Writing into a `String` never fails, and crossterm adds no error of its own.
#[verifier::external_body]
fn ansi_foreground(c: TermColor) -> (r: Result<String, std::fmt::Error>)
    ensures
        r is Ok,
        r matches Ok(s) ==> s@ == csi(color_code(c, '3')) || s@ == csi(Seq::empty()),
{
    let mut s = String::new();
    crossterm::Command::write_ansi(&crossterm::style::SetForegroundColor(crossterm_color(c)), &mut s).map(|_| s)
}

/// `crossterm::style::SetBackgroundColor(c).write_ansi` into a new `String`.
///
/// Trusted: what is written is the control sequence of the background code of the color, or
/// one with no code at all when crossterm's check of `NO_COLOR` turned colors off. Writing into a `String`
/// never fails, and crossterm adds no error of its own.
#[verifier::external_body]
fn ansi_background(c: TermColor) -> (r: Result<String, std::fmt::Error>)
    ensures
        r is Ok,
        r matches Ok(s) ==> s@ == csi(color_code(c, '4')) || s@ == csi(Seq::empty()),
{
    let mut s = String::new();
    crossterm::Command::write_ansi(&crossterm::style::SetBackgroundColor(crossterm_color(c)), &mut s).map(|_| s)
}

/// An attribute as crossterm's attribute of the same name.
#[verifier::external_body]
fn crossterm_attribute(a: TextAttribute) -> crossterm::style::Attribute {
    match a {
        TextAttribute::Bold => CtAttribute::Bold, TextAttribute::Dim => CtAttribute::Dim, TextAttribute::Italic => CtAttribute::Italic,
        TextAttribute::Underlined => CtAttribute::Underlined, TextAttribute::SlowBlink => CtAttribute::SlowBlink,
        TextAttribute::RapidBlink => CtAttribute::RapidBlink, TextAttribute::Reverse => CtAttribute::Reverse,
        TextAttribute::Hidden => CtAttribute::Hidden, TextAttribute::CrossedOut => CtAttribute::CrossedOut,
    }
}

/// `crossterm::style::SetAttributes(attrs).write_ansi` into a new `String`, the attributes
/// gathered into crossterm's `Attributes` by its `From<&[Attribute]>`.
///
/// Trusted: crossterm writes one `SetAttribute` sequence per attribute that the set holds, in
/// the order of `Attribute::iterator`, each the control sequence of the attribute's SGR
/// number (see [`attributes_text`]). Writing into a `String` never fails, and crossterm adds no error of its own.
#[verifier::external_body]
fn ansi_attributes(attrs: &Vec<TextAttribute>) -> (r: Result<String, std::fmt::Error>)
    ensures
        r is Ok,
        r matches Ok(s) ==> s@ == attributes_text(attrs@),
{
    let list: Vec<CtAttribute> = attrs.iter().map(|a| crossterm_attribute(*a)).collect();
    let mut s = String::new();
    crossterm::Command::write_ansi(&crossterm::style::SetAttributes(list.as_slice().into()), &mut s).map(|_| s)
}

/// `crossterm::style::Print(text).write_ansi` into a new `String`.
///
/// Trusted: the text itself is written (crossterm writes it with `{}`). Writing into a `String` never
/// fails, and crossterm adds no error of its own.
#[verifier::external_body]
fn ansi_print(text: &str) -> (r: Result<String, std::fmt::Error>)
    ensures
        r is Ok,
        r matches Ok(s) ==> s@ == text@,
{
    let mut s = String::new();
    crossterm::Command::write_ansi(&crossterm::style::Print(text), &mut s).map(|_| s)
}

/// `crossterm::style::ResetColor.write_ansi` into a new `String`.
///
/// Trusted: the control sequence with parameter `0` is written. Writing into a `String`
/// never fails, and crossterm adds no error of its own.
#[verifier::external_body]
fn ansi_reset_color() -> (r: Result<String, std::fmt::Error>)
    ensures
        r is Ok,
        r matches Ok(s) ==> s@ == csi(seq!['0']),
{
    let mut s = String::new();
    crossterm::Command::write_ansi(&crossterm::style::ResetColor, &mut s).map(|_| s)
}

/// The attributes that text modifiers stand for, in crossterm's order.
pub open spec fn attributes_of(m: u16) -> Seq<TextAttribute> {
    let a1 = if m & TextModifier::BOLD != 0 { seq![TextAttribute::Bold] } else { Seq::empty() };
    let a2 = if m & TextModifier::DIM != 0 { seq![TextAttribute::Dim] } else { Seq::empty() };
    let a3 = if m & TextModifier::ITALIC != 0 { seq![TextAttribute::Italic] } else { Seq::empty() };
    let a4 = if m & TextModifier::UNDERLINED != 0 { seq![TextAttribute::Underlined] } else { Seq::empty() };
    let a5 = if m & TextModifier::SLOW_BLINK != 0 { seq![TextAttribute::SlowBlink] } else { Seq::empty() };
    let a6 = if m & TextModifier::RAPID_BLINK != 0 { seq![TextAttribute::RapidBlink] } else { Seq::empty() };
    let a7 = if m & TextModifier::REVERSED != 0 { seq![TextAttribute::Reverse] } else { Seq::empty() };
    let a8 = if m & TextModifier::HIDDEN != 0 { seq![TextAttribute::Hidden] } else { Seq::empty() };
    let a9 = if m & TextModifier::CROSSED_OUT != 0 { seq![TextAttribute::CrossedOut] } else { Seq::empty() };
    a1 + a2 + a3 + a4 + a5 + a6 + a7 + a8 + a9
}

/// Push `a` when `m` has one of `bits`.
fn push_if(out: &mut Vec<TextAttribute>, m: u16, bits: u16, a: TextAttribute)
    ensures
        final(out)@ == old(out)@ + if m & bits != 0 { seq![a] } else { Seq::<TextAttribute>::empty() },
{
    if m & bits != 0 {
        out.push(a);
    } else {
        assert(out@ =~= out@ + Seq::<TextAttribute>::empty());
    }
}

/// The attributes that text modifiers stand for (see [`attributes_of`]).
pub fn modifier_to_attributes(m: u16) -> (r: Vec<TextAttribute>)
    ensures
        r@ == attributes_of(m),
{
    let mut out: Vec<TextAttribute> = Vec::new();
    push_if(&mut out, m, TextModifier::BOLD, TextAttribute::Bold);
    push_if(&mut out, m, TextModifier::DIM, TextAttribute::Dim);
    push_if(&mut out, m, TextModifier::ITALIC, TextAttribute::Italic);
    push_if(&mut out, m, TextModifier::UNDERLINED, TextAttribute::Underlined);
    push_if(&mut out, m, TextModifier::SLOW_BLINK, TextAttribute::SlowBlink);
    push_if(&mut out, m, TextModifier::RAPID_BLINK, TextAttribute::RapidBlink);
    push_if(&mut out, m, TextModifier::REVERSED, TextAttribute::Reverse);
    push_if(&mut out, m, TextModifier::HIDDEN, TextAttribute::Hidden);
    push_if(&mut out, m, TextModifier::CROSSED_OUT, TextAttribute::CrossedOut);
    assert(out@ =~= attributes_of(m));
    out
}

/// The escape sequences of a styled span: its foreground and background colors where set
/// (each with its code, or with no code when colors are off: `fg_on`, `bg_on`), its
/// attributes, its text, and a color reset.
pub open spec fn span_ansi(v: StyledSpanView, fg_on: bool, bg_on: bool) -> Seq<char> {
    let fg = match v.style.fg {
        Some(c) => csi(if fg_on { color_code(c, '3') } else { Seq::empty() }),
        None => Seq::empty(),
    };
    let bg = match v.style.bg {
        Some(c) => csi(if bg_on { color_code(c, '4') } else { Seq::empty() }),
        None => Seq::empty(),
    };
    fg + bg + attributes_text(attributes_of(v.style.add_modifier)) + v.content + csi(seq!['0'])
}

/// Write a styled span as escape sequences (see [`span_ansi`]).
pub fn span_to_ansi(span: &StyledSpan) -> (r: Result<String, RenderError>)
    ensures
        r is Ok,
        r matches Ok(s) ==> exists|fg_on: bool, bg_on: bool| s@ == span_ansi(span@, fg_on, bg_on),
{
    let mut out = String::new();
    let ghost mut fg_on = true;
    let ghost mut bg_on = true;
    match span.style.fg {
        Some(c) => match ansi_foreground(c) {
            Ok(s) => {
                proof { fg_on = s@ == csi(color_code(c, '3')); }
                out.append(s.as_str());
            },
            Err(_) => {
                return Err(RenderError);
            },
        },
        None => {},
    }
    match span.style.bg {
        Some(c) => match ansi_background(c) {
            Ok(s) => {
                proof { bg_on = s@ == csi(color_code(c, '4')); }
                out.append(s.as_str());
            },
            Err(_) => {
                return Err(RenderError);
            },
        },
        None => {},
    }
    match ansi_attributes(&modifier_to_attributes(span.style.add_modifier)) {
        Ok(s) => out.append(s.as_str()),
        Err(_) => {
            return Err(RenderError);
        },
    }
    match ansi_print(span.content.as_str()) {
        Ok(s) => out.append(s.as_str()),
        Err(_) => {
            return Err(RenderError);
        },
    }
    match ansi_reset_color() {
        Ok(s) => out.append(s.as_str()),
        Err(_) => {
            return Err(RenderError);
        },
    }
    assert(out@ =~= span_ansi(span@, fg_on, bg_on));
    Ok(out)
}

/// The escape sequence that opens a link to `url`.
pub open spec fn osc8_open(url: Seq<char>) -> Seq<char> {
    seq!['\u{1b}', ']', '8', ';', ';'] + url + seq!['\u{1b}', '\\']
}

/// The escape sequence that closes a link.
pub open spec fn osc8_close() -> Seq<char> {
    seq!['\u{1b}', ']', '8', ';', ';', '\u{1b}', '\\']
}

/// The escape sequences of the first `k` spans, with the color choices `on`.
pub open spec fn spans_ansi(spans: Seq<StyledSpanView>, on: Seq<(bool, bool)>, k: int) -> Seq<char>
    decreases k,
{
    if k <= 0 {
        Seq::empty()
    } else {
        spans_ansi(spans, on, k - 1) + span_ansi(spans[k - 1], on[k - 1].0, on[k - 1].1)
    }
}

/// The (saturating) sum of the display widths of the first `k` spans.
pub open spec fn spans_text_width(spans: Seq<StyledSpanView>, k: int) -> usize
    decreases k,
{
    if k <= 0 {
        0
    } else {
        spans_text_width(spans, k - 1).saturating_add(display_width(spans[k - 1].content))
    }
}

/// Render styled spans as one OSC 8 link to `url`: the opening sequence, each span's escape
/// sequences, and the closing sequence; and the display width of the text.
pub fn render_osc8_link(spans: &Vec<StyledSpan>, url: &str) -> (r: Result<(String, usize), RenderError>)
    ensures
        r is Ok,
        r matches Ok((s, w)) ==> w == spans_text_width(styled_view(spans@), spans@.len() as int) && exists|on: Seq<(bool, bool)>|
            on.len() == spans@.len() && s@ == osc8_open(url@) + spans_ansi(styled_view(spans@), on, spans@.len() as int) + osc8_close(),
{
    let mut inner = String::new();
    let mut width: usize = 0;
    let ghost mut on: Seq<(bool, bool)> = Seq::empty();
    for i in 0..spans.len()
        invariant
            on.len() == i,
            inner@ == spans_ansi(styled_view(spans@), on, i as int),
            width == spans_text_width(styled_view(spans@), i as int),
    {
        match span_to_ansi(&spans[i]) {
            Ok(s) => {
                proof {
                    let (a, b) = choose|a: bool, b: bool| s@ == span_ansi(spans@[i as int]@, a, b);
                    let on0 = on;
                    on = on.push((a, b));
                    assert(styled_view(spans@)[i as int] == spans@[i as int]@);
                    assert forall|k: int| 0 <= k <= i implies spans_ansi(styled_view(spans@), on, k) == spans_ansi(styled_view(spans@), on0, k) by {
                        lemma_spans_ansi_prefix(styled_view(spans@), on0, on, k);
                    }
                }
                inner.append(s.as_str());
                width = width.saturating_add(str_width(spans[i].content.as_str()));
            },
            Err(e) => {
                return Err(e);
            },
        }
    }
    let mut out = String::new();
    proof {
        reveal_strlit("\u{1b}]8;;");
        reveal_strlit("\u{1b}\\");
        reveal_strlit("\u{1b}]8;;\u{1b}\\");
    }
    out.append("\u{1b}]8;;");
    out.append(url);
    out.append("\u{1b}\\");
    out.append(inner.as_str());
    out.append("\u{1b}]8;;\u{1b}\\");
    assert(out@ =~= osc8_open(url@) + spans_ansi(styled_view(spans@), on, spans@.len() as int) + osc8_close());
    Ok((out, width))
}

proof fn lemma_spans_ansi_prefix(spans: Seq<StyledSpanView>, a: Seq<(bool, bool)>, b: Seq<(bool, bool)>, k: int)
    requires
        0 <= k <= a.len(),
        a.len() <= b.len(),
        forall|j: int| 0 <= j < a.len() ==> a[j] == b[j],
    ensures
        spans_ansi(spans, a, k) == spans_ansi(spans, b, k),
    decreases k,
{
    if k > 0 {
        lemma_spans_ansi_prefix(spans, a, b, k - 1);
    }
}

/// The spans that have text, in order.
pub open spec fn with_text(s: Seq<StyledSpanView>) -> Seq<StyledSpanView>
    decreases s.len(),
{
    if s.len() == 0 {
        s
    } else if s.last().content.len() > 0 {
        with_text(s.drop_last()).push(s.last())
    } else {
        with_text(s.drop_last())
    }
}

/// Keeping the spans that have text leaves no empty span, and keeping them again changes
/// nothing.
pub proof fn with_text_drops_every_empty_span(s: Seq<StyledSpanView>)
    ensures
        forall|k: int| 0 <= k < with_text(s).len() ==> (#[trigger] with_text(s)[k]).content.len() > 0,
        with_text(with_text(s)) == with_text(s),
    decreases s.len(),
{
    if s.len() > 0 {
        with_text_drops_every_empty_span(s.drop_last());
        let w = with_text(s.drop_last());
        if s.last().content.len() > 0 {
            let wp = w.push(s.last());
            assert(wp.drop_last() =~= w);
            assert(wp.last() == s.last());
            assert forall|k: int| 0 <= k < wp.len() implies (#[trigger] wp[k]).content.len() > 0 by {
                if k < w.len() {
                    assert(wp[k] == w[k]);
                }
            }
        }
    }
}

/// A link whose text is made of styled spans.
pub struct Osc8Link {
    pub spans: Vec<StyledSpan>,
    pub url: String,
}

impl Osc8Link {
    /// A link to `url` with the spans that have text.
    pub fn new(spans: Vec<StyledSpan>, url: String) -> (l: Osc8Link)
        ensures
            styled_view(l.spans@) == with_text(styled_view(spans@)),
            l.url@ == url@,
    {
        let mut kept: Vec<StyledSpan> = Vec::new();
        let ghost all = styled_view(spans@);
        let ghost src = spans@;
        let mut it = spans.into_iter();
        for s in iter: it
            invariant
                iter.seq() == src,
                styled_view(src) == all,
                styled_view(kept@) == with_text(all.take(iter.index() as int)),
        {
            let ghost k = iter.index();
            proof {
                assert(all.take(k + 1).drop_last() =~= all.take(k as int));
                assert(all[k as int] == s@);
                assert(all.take(k + 1).last() == s@);
            }
            if !s.content.as_str().is_empty() {
                let ghost o = kept@;
                kept.push(s);
                proof {
                    assert(styled_view(kept@) =~= styled_view(o).push(s@));
                }
            }
        }
        assert(all.take(all.len() as int) =~= all);
        Osc8Link { spans: kept, url }
    }

    /// The escape sequence of this link and the width of its text (see
    /// [`render_osc8_link`]).
    pub fn sequence(&self) -> (r: Result<(String, usize), RenderError>)
        ensures
            r is Ok,
            r matches Ok((s, w)) ==> w == spans_text_width(styled_view(self.spans@), self.spans@.len() as int) && exists|on: Seq<(bool, bool)>|
                on.len() == self.spans@.len() && s@ == osc8_open(self.url@) + spans_ansi(styled_view(self.spans@), on, self.spans@.len() as int) + osc8_close(),
    {
        render_osc8_link(&self.spans, self.url.as_str())
    }
}

} // verus!

verus! {

proof fn lemma_contains_add(s: Seq<TextAttribute>, t: Seq<TextAttribute>, x: TextAttribute)
    ensures
        (s + t).contains(x) == (s.contains(x) || t.contains(x)),
{
    if s.contains(x) {
        let i = choose|i: int| 0 <= i < s.len() && s[i] == x;
        assert((s + t)[i] == x);
    }
    if t.contains(x) {
        let j = choose|j: int| 0 <= j < t.len() && t[j] == x;
        assert((s + t)[s.len() + j] == x);
    }
    if (s + t).contains(x) {
        let i = choose|i: int| 0 <= i < (s + t).len() && (s + t)[i] == x;
        if i < s.len() {
            assert(s[i] == x);
        } else {
            assert(t[i - s.len()] == x);
        }
    }
}

proof fn lemma_contains_pieces(m: u16, x: TextAttribute)
    ensures
        attributes_of(m).contains(x) == {
            ||| (m & TextModifier::BOLD != 0 && x == TextAttribute::Bold)
            ||| (m & TextModifier::DIM != 0 && x == TextAttribute::Dim)
            ||| (m & TextModifier::ITALIC != 0 && x == TextAttribute::Italic)
            ||| (m & TextModifier::UNDERLINED != 0 && x == TextAttribute::Underlined)
            ||| (m & TextModifier::SLOW_BLINK != 0 && x == TextAttribute::SlowBlink)
            ||| (m & TextModifier::RAPID_BLINK != 0 && x == TextAttribute::RapidBlink)
            ||| (m & TextModifier::REVERSED != 0 && x == TextAttribute::Reverse)
            ||| (m & TextModifier::HIDDEN != 0 && x == TextAttribute::Hidden)
            ||| (m & TextModifier::CROSSED_OUT != 0 && x == TextAttribute::CrossedOut)
        },
{
    let a1 = if m & TextModifier::BOLD != 0 { seq![TextAttribute::Bold] } else { Seq::empty() };
    let a2 = if m & TextModifier::DIM != 0 { seq![TextAttribute::Dim] } else { Seq::empty() };
    let a3 = if m & TextModifier::ITALIC != 0 { seq![TextAttribute::Italic] } else { Seq::empty() };
    let a4 = if m & TextModifier::UNDERLINED != 0 { seq![TextAttribute::Underlined] } else { Seq::empty() };
    let a5 = if m & TextModifier::SLOW_BLINK != 0 { seq![TextAttribute::SlowBlink] } else { Seq::empty() };
    let a6 = if m & TextModifier::RAPID_BLINK != 0 { seq![TextAttribute::RapidBlink] } else { Seq::empty() };
    let a7 = if m & TextModifier::REVERSED != 0 { seq![TextAttribute::Reverse] } else { Seq::empty() };
    let a8 = if m & TextModifier::HIDDEN != 0 { seq![TextAttribute::Hidden] } else { Seq::empty() };
    let a9 = if m & TextModifier::CROSSED_OUT != 0 { seq![TextAttribute::CrossedOut] } else { Seq::empty() };
    lemma_contains_add(a1, a2, x);
    lemma_contains_add(a1 + a2, a3, x);
    lemma_contains_add(a1 + a2 + a3, a4, x);
    lemma_contains_add(a1 + a2 + a3 + a4, a5, x);
    lemma_contains_add(a1 + a2 + a3 + a4 + a5, a6, x);
    lemma_contains_add(a1 + a2 + a3 + a4 + a5 + a6, a7, x);
    lemma_contains_add(a1 + a2 + a3 + a4 + a5 + a6 + a7, a8, x);
    lemma_contains_add(a1 + a2 + a3 + a4 + a5 + a6 + a7 + a8, a9, x);
    assert forall|y: TextAttribute| seq![y].contains(x) == (y == x) by {
        if y == x {
            assert(seq![y][0] == x);
        }
    }
    assert(!Seq::<TextAttribute>::empty().contains(x));
}

/// Each text modifier that a style adds is written as its attribute, and no other attribute
/// is written: the attributes of `m` hold bold exactly when `m` has the bold flag, italic
/// exactly when it has the italic flag, and so on for dim, underline, slow and rapid blink,
/// reverse, hidden and crossed out.
#[verifier::rlimit(40)]
pub proof fn each_modifier_gives_its_attribute(m: u16)
    ensures
        attributes_of(m).contains(TextAttribute::Bold) == (m & TextModifier::BOLD != 0),
        attributes_of(m).contains(TextAttribute::Dim) == (m & TextModifier::DIM != 0),
        attributes_of(m).contains(TextAttribute::Italic) == (m & TextModifier::ITALIC != 0),
        attributes_of(m).contains(TextAttribute::Underlined) == (m & TextModifier::UNDERLINED != 0),
        attributes_of(m).contains(TextAttribute::SlowBlink) == (m & TextModifier::SLOW_BLINK != 0),
        attributes_of(m).contains(TextAttribute::RapidBlink) == (m & TextModifier::RAPID_BLINK != 0),
        attributes_of(m).contains(TextAttribute::Reverse) == (m & TextModifier::REVERSED != 0),
        attributes_of(m).contains(TextAttribute::Hidden) == (m & TextModifier::HIDDEN != 0),
        attributes_of(m).contains(TextAttribute::CrossedOut) == (m & TextModifier::CROSSED_OUT != 0),
        attributes_of(m).len() <= 9,
{
    assert(attributes_of(m).contains(TextAttribute::Bold) == (m & TextModifier::BOLD != 0)) by {
        lemma_contains_pieces(m, TextAttribute::Bold);
    }
    assert(attributes_of(m).contains(TextAttribute::Dim) == (m & TextModifier::DIM != 0)) by {
        lemma_contains_pieces(m, TextAttribute::Dim);
    }
    assert(attributes_of(m).contains(TextAttribute::Italic) == (m & TextModifier::ITALIC != 0)) by {
        lemma_contains_pieces(m, TextAttribute::Italic);
    }
    assert(attributes_of(m).contains(TextAttribute::Underlined) == (m & TextModifier::UNDERLINED != 0)) by {
        lemma_contains_pieces(m, TextAttribute::Underlined);
    }
    assert(attributes_of(m).contains(TextAttribute::SlowBlink) == (m & TextModifier::SLOW_BLINK != 0)) by {
        lemma_contains_pieces(m, TextAttribute::SlowBlink);
    }
    assert(attributes_of(m).contains(TextAttribute::RapidBlink) == (m & TextModifier::RAPID_BLINK != 0)) by {
        lemma_contains_pieces(m, TextAttribute::RapidBlink);
    }
    assert(attributes_of(m).contains(TextAttribute::Reverse) == (m & TextModifier::REVERSED != 0)) by {
        lemma_contains_pieces(m, TextAttribute::Reverse);
    }
    assert(attributes_of(m).contains(TextAttribute::Hidden) == (m & TextModifier::HIDDEN != 0)) by {
        lemma_contains_pieces(m, TextAttribute::Hidden);
    }
    assert(attributes_of(m).contains(TextAttribute::CrossedOut) == (m & TextModifier::CROSSED_OUT != 0)) by {
        lemma_contains_pieces(m, TextAttribute::CrossedOut);
    }
}

} // verus!

verus! {

/// A styled span is written as its styles, then its text, then a reset of the colors: the
/// escape sequences end with the text followed by `ESC [ 0 m`; with a foreground color set
/// (and colors on) they start with the sequence of that color; and the attributes of its
/// modifiers come right before the text.
pub proof fn span_is_written_between_its_styles_and_a_reset(v: StyledSpanView, fg_on: bool, bg_on: bool)
    ensures
        ({
            let out = span_ansi(v, fg_on, bg_on);
            let tail = v.content + seq!['\u{1b}', '[', '0', 'm'];
            let attrs = attributes_text(attributes_of(v.style.add_modifier));
            &&& out.len() >= tail.len()
            &&& out.skip(out.len() - tail.len()) == tail
            &&& out.len() >= attrs.len() + tail.len()
            &&& out.subrange(out.len() - tail.len() - attrs.len(), out.len() - tail.len()) == attrs
            &&& (fg_on && v.style.fg is Some) ==> out.take(csi(color_code(v.style.fg->Some_0, '3')).len() as int) == csi(color_code(v.style.fg->Some_0, '3'))
        }),
{
    let out = span_ansi(v, fg_on, bg_on);
    let tail = v.content + seq!['\u{1b}', '[', '0', 'm'];
    let attrs = attributes_text(attributes_of(v.style.add_modifier));
    let fg = match v.style.fg {
        Some(c) => csi(if fg_on { color_code(c, '3') } else { Seq::empty() }),
        None => Seq::empty(),
    };
    let bg = match v.style.bg {
        Some(c) => csi(if bg_on { color_code(c, '4') } else { Seq::empty() }),
        None => Seq::empty(),
    };
    assert(csi(seq!['0']) =~= seq!['\u{1b}', '[', '0', 'm']);
    assert(out =~= fg + bg + attrs + tail);
    assert(out.skip(out.len() - tail.len()) =~= tail);
    assert(out.subrange(out.len() - tail.len() - attrs.len(), out.len() - tail.len()) =~= attrs);
    if v.style.fg is Some && fg_on {
        assert(out.take(fg.len() as int) =~= fg);
    }
}

} // verus!
