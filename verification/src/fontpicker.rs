//! Picking a font by typing: the first font whose lowercase name starts with what was typed,
//! with its neighbours in the list.
use vstd::prelude::*;

use crate::terminal_font::starts_with;
use crate::text::{chars_of, string_of_range};

verus! {

/// The view of a list of fonts: each font's lowercase name and its name.
pub open spec fn fonts_view(fonts: Seq<(String, String)>) -> Seq<(Seq<char>, Seq<char>)> {
    fonts.map_values(|f: (String, String)| (f.0@, f.1@))
}

/// The view of an optional text.
pub open spec fn opt_view(o: Option<String>) -> Option<Seq<char>> {
    match o {
        Some(s) => Some(s@),
        None => None,
    }
}

/// `a` comes before `b` in the order of strings (character by character, a prefix first),
/// the order of a `BTreeMap`'s keys.
pub open spec fn text_lt(a: Seq<char>, b: Seq<char>) -> bool
    decreases a.len(),
{
    if a.len() == 0 {
        b.len() > 0
    } else if b.len() == 0 {
        false
    } else if a[0] != b[0] {
        (a[0] as u32) < (b[0] as u32)
    } else {
        text_lt(a.drop_first(), b.drop_first())
    }
}

/// The fonts are ordered by strictly increasing lowercase name, as the keys of a map are.
pub open spec fn keys_strictly_increasing(fonts: Seq<(Seq<char>, Seq<char>)>) -> bool {
    forall|i: int, j: int| 0 <= i < j < fonts.len() ==> text_lt(#[trigger] fonts[i].0, #[trigger] fonts[j].0)
}

/// The name of the `j`-th font, if there is one.
pub open spec fn font_name_at(fonts: Seq<(Seq<char>, Seq<char>)>, j: int) -> Option<Seq<char>> {
    if 0 <= j < fonts.len() {
        Some(fonts[j].1)
    } else {
        None
    }
}

/// The index of the first of `fonts[k..]` whose lowercase name starts with `input`.
pub open spec fn first_prefixed(fonts: Seq<(Seq<char>, Seq<char>)>, input: Seq<char>, k: int) -> Option<int>
    decreases fonts.len() - k,
{
    if k < 0 || k >= fonts.len() {
        None
    } else if input.is_prefix_of(fonts[k].0) {
        Some(k)
    } else {
        first_prefixed(fonts, input, k + 1)
    }
}

/// The font that `input` picks from `fonts` (in the order of their lowercase names), the one
/// before it and the one after it: with no input, the first font and the second; else the
/// first font whose lowercase name starts with the input, with its neighbours; nothing when
/// no font matches.
pub open spec fn font_match(fonts: Seq<(Seq<char>, Seq<char>)>, input: Seq<char>) -> (Option<Seq<char>>, Option<Seq<char>>, Option<Seq<char>>) {
    if input.len() == 0 {
        (font_name_at(fonts, 0), None, font_name_at(fonts, 1))
    } else {
        match first_prefixed(fonts, input, 0) {
            Some(i) => (Some(fonts[i].1), font_name_at(fonts, i - 1), font_name_at(fonts, i + 1)),
            None => (None, None, None),
        }
    }
}

proof fn lemma_first_prefixed(fonts: Seq<(Seq<char>, Seq<char>)>, input: Seq<char>, k: int)
    requires
        0 <= k,
    ensures
        match first_prefixed(fonts, input, k) {
            Some(i) => k <= i < fonts.len() && input.is_prefix_of(fonts[i].0)
                && forall|j: int| k <= j < i ==> !input.is_prefix_of(#[trigger] fonts[j].0),
            None => forall|j: int| k <= j < fonts.len() ==> !input.is_prefix_of(#[trigger] fonts[j].0),
        },
    decreases fonts.len() - k,
{
    if k < fonts.len() && !input.is_prefix_of(fonts[k].0) {
        lemma_first_prefixed(fonts, input, k + 1);
    }
}

/// The picked font is the one with the least lowercase name that starts with the input:
/// every other font whose lowercase name starts with it comes later in the order of names;
/// and where no font is picked, no name starts with the input.
pub proof fn picked_font_has_the_least_name(fonts: Seq<(Seq<char>, Seq<char>)>, input: Seq<char>)
    requires
        keys_strictly_increasing(fonts),
        input.len() > 0,
    ensures
        match first_prefixed(fonts, input, 0) {
            Some(i) => font_match(fonts, input).0 == Some(fonts[i].1)
                && forall|j: int| 0 <= j < fonts.len() && j != i && input.is_prefix_of(#[trigger] fonts[j].0)
                    ==> text_lt(fonts[i].0, fonts[j].0),
            None => font_match(fonts, input).0 is None
                && forall|j: int| 0 <= j < fonts.len() ==> !input.is_prefix_of(#[trigger] fonts[j].0),
        },
{
    lemma_first_prefixed(fonts, input, 0);
}

fn name_at(fonts: &Vec<(String, String)>, j: usize) -> (r: Option<String>)
    ensures
        opt_view(r) == font_name_at(fonts_view(fonts@), j as int),
{
    if j < fonts.len() {
        Some(fonts[j].1.clone())
    } else {
        None
    }
}

/// The font that `input` picks from `all_fonts`, each given by its lowercase name and its
/// name in the order of the lowercase names (the entries of a map from lowercase name to
/// name), with the fonts before and after it (see [`font_match`]): the font with the least
/// lowercase name that starts with the input.
pub fn find_first_match(all_fonts: &Vec<(String, String)>, input: &str) -> (r: (Option<String>, Option<String>, Option<String>))
    requires
        keys_strictly_increasing(fonts_view(all_fonts@)),
    ensures
        (opt_view(r.0), opt_view(r.1), opt_view(r.2)) == font_match(fonts_view(all_fonts@), input@),
{
    let ghost fv = fonts_view(all_fonts@);
    let pre = chars_of(input);
    if pre.len() == 0 {
        return (name_at(all_fonts, 0), None, name_at(all_fonts, 1));
    }
    for i in 0..all_fonts.len()
        invariant
            fv == fonts_view(all_fonts@),
            pre@ == input@,
            first_prefixed(fv, input@, 0) == first_prefixed(fv, input@, i as int),
    {
        let key = chars_of(all_fonts[i].0.as_str());
        proof { assert(fv[i as int] == (all_fonts@[i as int].0@, all_fonts@[i as int].1@)); }
        if starts_with(&key, &pre) {
            let prev = if i > 0 { name_at(all_fonts, i - 1) } else { None };
            return (Some(all_fonts[i].1.clone()), prev, name_at(all_fonts, i + 1));
        }
    }
    (None, None, None)
}

} // verus!

verus! {

/// The modifier keys held with a character key.
#[derive(Debug, Clone, Copy, PartialEq, Eq, Structural)]
pub enum KeyMods {
    /// None.
    Empty,
    /// Shift alone.
    ShiftOnly,
    /// Control, with or without others.
    WithControl,
    /// Any other combination.
    Other,
}

/// A key pressed in the font picker.
#[derive(Debug, Clone, Copy, PartialEq, Eq, Structural)]
pub enum PickerKey {
    Backspace,
    Tab,
    Enter,
    Esc,
    Up,
    Down,
    Char(char, KeyMods),
    Other,
}

/// What the font picker does after a key.
#[derive(Debug, Clone, PartialEq, Eq)]
pub enum PickerAction {
    /// Keep picking.
    Continue,
    /// The font with this name is picked.
    Confirm(String),
    /// Picking is given up.
    Abort,
}

/// The mathematical value of a [`PickerAction`].
pub enum PickerActionView {
    Continue,
    Confirm(Seq<char>),
    Abort,
}

impl View for PickerAction {
    type V = PickerActionView;

    open spec fn view(&self) -> PickerActionView {
        match self {
            PickerAction::Continue => PickerActionView::Continue,
            PickerAction::Confirm(s) => PickerActionView::Confirm(s@),
            PickerAction::Abort => PickerActionView::Abort,
        }
    }
}

/// `c` in lower case, for ASCII letters (`char::to_ascii_lowercase`).
pub open spec fn lower_char(c: char) -> char {
    if 'A' <= c && c <= 'Z' { ((c as u32) + 32) as char } else { c }
}

/// `c` in upper case, for ASCII letters (`char::to_ascii_uppercase`).
pub open spec fn upper_char(c: char) -> char {
    if 'a' <= c && c <= 'z' { ((c as u32) - 32) as char } else { c }
}

/// `s` with its ASCII letters in lower case (`str::to_ascii_lowercase`).
pub open spec fn ascii_lower(s: Seq<char>) -> Seq<char> {
    s.map_values(|c: char| lower_char(c))
}

/// The input and the action after `key`, with `input` typed so far; the input is matched
/// against the fonts in lower case (see [`font_match`]). Backspace deletes the last
/// character; Tab completes to the matching font, Up and Down move to the fonts before and
/// after it; Enter picks the matching font, if any; Esc and Control-C give up; a character
/// is typed as it is, or in upper case with Shift, and with other modifiers not at all.
pub open spec fn picker_step(fonts: Seq<(Seq<char>, Seq<char>)>, input: Seq<char>, key: PickerKey) -> (Seq<char>, PickerActionView) {
    let m = font_match(fonts, ascii_lower(input));
    match key {
        PickerKey::Backspace => (if input.len() > 0 { input.drop_last() } else { input }, PickerActionView::Continue),
        PickerKey::Tab => (match m.0 { Some(f) => f, None => input }, PickerActionView::Continue),
        PickerKey::Enter => match m.0 {
            Some(f) => (input, PickerActionView::Confirm(f)),
            None => (input, PickerActionView::Continue),
        },
        PickerKey::Esc => (input, PickerActionView::Abort),
        PickerKey::Up => (match m.1 { Some(f) => f, None => input }, PickerActionView::Continue),
        PickerKey::Down => (match m.2 { Some(f) => f, None => input }, PickerActionView::Continue),
        PickerKey::Char(c, mods) => match mods {
            KeyMods::WithControl => (input, if c == 'c' { PickerActionView::Abort } else { PickerActionView::Continue }),
            KeyMods::Empty => (input.push(c), PickerActionView::Continue),
            KeyMods::ShiftOnly => (input.push(upper_char(c)), PickerActionView::Continue),
            KeyMods::Other => (input, PickerActionView::Continue),
        },
        PickerKey::Other => (input, PickerActionView::Continue),
    }
}

fn lower_char_exec(c: char) -> (r: char)
    ensures
        r == lower_char(c),
{
    if 'A' <= c && c <= 'Z' {
        let b: u8 = c as u8;
        let l: u8 = b + 32;
        proof { assert(l as u32 == (c as u32) + 32); }
        l as char
    } else {
        c
    }
}

fn upper_char_exec(c: char) -> (r: char)
    ensures
        r == upper_char(c),
{
    if 'a' <= c && c <= 'z' {
        let b: u8 = c as u8;
        let u: u8 = b - 32;
        proof { assert(u as u32 == (c as u32) - 32); }
        u as char
    } else {
        c
    }
}

/// `s` with its ASCII letters in lower case (see [`ascii_lower`]).
pub fn to_ascii_lowercase(s: &str) -> (r: String)
    ensures
        r@ == ascii_lower(s@),
{
    let v = chars_of(s);
    let mut r = String::new();
    for i in 0..v.len()
        invariant
            v@ == s@,
            r@ == ascii_lower(s@).take(i as int),
    {
        let c = lower_char_exec(v[i]);
        r.push(c);
        proof { assert(ascii_lower(s@).take(i + 1) =~= ascii_lower(s@).take(i as int).push(c)); }
    }
    proof { assert(ascii_lower(s@).take(v@.len() as int) =~= ascii_lower(s@)); }
    r
}

/// Handle one key of the font picker (see [`picker_step`]): `input` is what was typed so far.
pub fn font_picker_step(all_fonts: &Vec<(String, String)>, input: &mut String, key: PickerKey) -> (a: PickerAction)
    requires
        keys_strictly_increasing(fonts_view(all_fonts@)),
    ensures
        (final(input)@, a@) == picker_step(fonts_view(all_fonts@), old(input)@, key),
{
    let lower = to_ascii_lowercase(input.as_str());
    let (first, prev, next) = find_first_match(all_fonts, lower.as_str());
    match key {
        PickerKey::Backspace => {
            let v = chars_of(input.as_str());
            if v.len() > 0 {
                *input = string_of_range(&v, 0, v.len() - 1);
                proof { assert(input@ =~= old(input)@.drop_last()); }
            }
            PickerAction::Continue
        },
        PickerKey::Tab => {
            match first {
                Some(f) => { *input = f; },
                None => {},
            }
            PickerAction::Continue
        },
        PickerKey::Enter => match first {
            Some(f) => PickerAction::Confirm(f),
            None => PickerAction::Continue,
        },
        PickerKey::Esc => PickerAction::Abort,
        PickerKey::Up => {
            match prev {
                Some(f) => { *input = f; },
                None => {},
            }
            PickerAction::Continue
        },
        PickerKey::Down => {
            match next {
                Some(f) => { *input = f; },
                None => {},
            }
            PickerAction::Continue
        },
        PickerKey::Char(c, mods) => match mods {
            KeyMods::WithControl => if c == 'c' { PickerAction::Abort } else { PickerAction::Continue },
            KeyMods::Empty => {
                input.push(c);
                PickerAction::Continue
            },
            KeyMods::ShiftOnly => {
                input.push(upper_char_exec(c));
                PickerAction::Continue
            },
            KeyMods::Other => PickerAction::Continue,
        },
        PickerKey::Other => PickerAction::Continue,
    }
}

} // verus!

verus! {

/// The picker's keys, in terms of the font that the typed text picks (the first font whose
/// lowercase name starts with the typed text in lower case): Tab completes to that font and
/// Enter picks it; Up and Down move to the fonts just before and after it; without such a
/// font these keys change nothing and Enter picks nothing. Esc and Control-C give up and
/// leave the input alone; a character typed without modifiers is appended and Backspace takes
/// it back.
pub proof fn picker_keys_follow_the_match(fonts: Seq<(Seq<char>, Seq<char>)>, input: Seq<char>, ch: char)
    requires
        ascii_lower(input).len() > 0,
    ensures
        match first_prefixed(fonts, ascii_lower(input), 0) {
            Some(i) => {
                &&& picker_step(fonts, input, PickerKey::Tab) == (fonts[i].1, PickerActionView::Continue)
                &&& picker_step(fonts, input, PickerKey::Enter) == (input, PickerActionView::Confirm(fonts[i].1))
                &&& picker_step(fonts, input, PickerKey::Up).0 == if i > 0 { fonts[i - 1].1 } else { input }
                &&& picker_step(fonts, input, PickerKey::Down).0 == if i + 1 < fonts.len() { fonts[i + 1].1 } else { input }
            },
            None => {
                &&& picker_step(fonts, input, PickerKey::Tab).0 == input
                &&& picker_step(fonts, input, PickerKey::Enter) == (input, PickerActionView::Continue)
                &&& picker_step(fonts, input, PickerKey::Up).0 == input
                &&& picker_step(fonts, input, PickerKey::Down).0 == input
            },
        },
        picker_step(fonts, input, PickerKey::Esc) == (input, PickerActionView::Abort),
        picker_step(fonts, input, PickerKey::Char('c', KeyMods::WithControl)) == (input, PickerActionView::Abort),
        picker_step(fonts, picker_step(fonts, input, PickerKey::Char(ch, KeyMods::Empty)).0, PickerKey::Backspace).0 == input,
{
    lemma_first_prefixed(fonts, ascii_lower(input), 0);
    assert(input.push(ch).drop_last() =~= input);
}

} // verus!
