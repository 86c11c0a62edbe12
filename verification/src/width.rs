//! Display widths of text in terminal columns, as the `unicode-width` crate computes them.
use vstd::prelude::*;

verus! {

/// The display width of a string, as `unicode_width::UnicodeWidthStr::width` gives it.
pub uninterp spec fn display_width(s: Seq<char>) -> usize;

/// The display width of a character, as `unicode_width::UnicodeWidthChar::width` gives it
/// (`None` for control characters).
pub uninterp spec fn char_display_width(c: char) -> Option<usize>;

/// Printable ASCII: from space to tilde.
pub open spec fn is_printable_ascii(c: char) -> bool {
    ' ' <= c && c <= '~'
}

/// Every character of `s` is printable ASCII.
pub open spec fn all_printable_ascii(s: Seq<char>) -> bool {
    forall|i: int| 0 <= i < s.len() ==> is_printable_ascii(#[trigger] s[i])
}

/// `unicode_width::UnicodeWidthStr::width`: the number of terminal columns that `s` takes.
///
/// Trusted: the result is the named width of `s`; a string of printable ASCII characters
/// (the empty string included) takes one column per character, as the crate's rules state
/// (each such character has width 1 and none of them takes part in a ligature rule).
#[verifier::external_body]
pub(crate) fn str_width(s: &str) -> (w: usize)
    ensures
        w == display_width(s@),
        all_printable_ascii(s@) ==> w == s@.len(),
{
    unicode_width::UnicodeWidthStr::width(s)
}

/// `unicode_width::UnicodeWidthChar::width`: the number of terminal columns that `c` takes,
/// or `None` for a control character.
///
/// Trusted: the result is the named width of `c`; printable ASCII has width 1, and the C0 and
/// C1 control characters (below U+0020 and from U+007F to U+009F) have none, as the crate's
/// source shows.
#[verifier::external_body]
pub(crate) fn char_width(c: char) -> (w: Option<usize>)
    ensures
        w == char_display_width(c),
        is_printable_ascii(c) ==> w == Some(1usize),
        (c < ' ' || ('\u{7f}' <= c && c < '\u{a0}')) ==> w is None,
{
    unicode_width::UnicodeWidthChar::width(c)
}

} // verus!
