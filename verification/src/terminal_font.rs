//! Reading a terminal's font family out of the text that the terminal's tools print: the
//! first line that starts with a known prefix names the font after the prefix.
use vstd::prelude::*;

use crate::text::{chars_of, split_lines, string_of_range, text_lines};

verus! {

/// Why a terminal's font family could not be found.
#[derive(Debug)]
pub enum WtfError {
    /// No line of the terminal's configuration file names a font (terminal, line prefix).
    ConfigFile(String, String),
    /// No line of the output of the terminal's command names a font (terminal, line prefix).
    CommandOutput(String, String),
}

/// Whether `line` starts with `prefix`.
pub fn starts_with(line: &Vec<char>, prefix: &Vec<char>) -> (b: bool)
    ensures
        b == prefix@.is_prefix_of(line@),
{
    if prefix.len() > line.len() {
        return false;
    }
    for i in 0..prefix.len()
        invariant
            prefix@.len() <= line@.len(),
            forall|j: int| 0 <= j < i ==> prefix@[j] == line@[j],
    {
        if prefix[i] != line[i] {
            assert(prefix@ != line@.subrange(0, prefix@.len() as int) || prefix@[i as int] == line@[i as int]);
            return false;
        }
    }
    assert(prefix@ =~= line@.subrange(0, prefix@.len() as int));
    true
}

/// What follows `prefix` on the first of `lines[k..]` that starts with it and has more
/// after it.
pub open spec fn font_after_prefix(lines: Seq<Seq<char>>, prefix: Seq<char>, k: int) -> Option<Seq<char>>
    decreases lines.len() - k,
{
    if k < 0 || k >= lines.len() {
        None
    } else if prefix.is_prefix_of(lines[k]) && lines[k].len() > prefix.len() {
        Some(lines[k].skip(prefix.len() as int))
    } else {
        font_after_prefix(lines, prefix, k + 1)
    }
}

/// The font family that a terminal command printed: what follows `prefix` on the first
/// line of `stdout` that starts with it and has more after it; else the error that names the
/// terminal and the prefix.
pub fn stdout_get_line(terminal: &str, stdout: String, prefix: &str) -> (r: Result<String, WtfError>)
    ensures
        match r {
            Ok(s) => font_after_prefix(text_lines(stdout@), prefix@, 0) == Some(s@),
            Err(e) => {
                &&& font_after_prefix(text_lines(stdout@), prefix@, 0) is None
                &&& (e matches WtfError::CommandOutput(t, p) && t@ == terminal@ && p@ == prefix@)
            },
        },
{
    let lines = split_lines(stdout.as_str());
    let ghost ls = text_lines(stdout@);
    let pre = chars_of(prefix);
    for i in 0..lines.len()
        invariant
            ls == text_lines(stdout@),
            lines@.map_values(|l: String| l@) == ls,
            pre@ == prefix@,
            font_after_prefix(ls, prefix@, 0) == font_after_prefix(ls, prefix@, i as int),
    {
        proof { assert(lines@.map_values(|l: String| l@)[i as int] == lines@[i as int]@); }
        let line = chars_of(lines[i].as_str());
        assert(line@ == ls[i as int]);
        if starts_with(&line, &pre) && line.len() > pre.len() {
            let rest = string_of_range(&line, pre.len(), line.len());
            proof {
                assert(rest@ =~= ls[i as int].skip(prefix@.len() as int));
            }
            return Ok(rest);
        }
    }
    Err(WtfError::CommandOutput(terminal.to_owned(), prefix.to_owned()))
}

} // verus!

verus! {

/// A terminal whose font family can be found out, and how: by a command's output (Ghostty,
/// WezTerm, kitty) or by its configuration file (Rio, foot).
#[derive(Debug, Clone, Copy, PartialEq, Eq, Structural)]
pub enum TerminalKind {
    Ghostty,
    WezTerm,
    Rio,
    Kitty,
    Foot,
}

/// The terminal that `TERM_PROGRAM` names, if it is one whose font can be found out.
pub open spec fn by_term_program(p: Seq<char>) -> Option<TerminalKind> {
    if p == "ghostty"@ {
        Some(TerminalKind::Ghostty)
    } else if p == "WezTerm"@ {
        Some(TerminalKind::WezTerm)
    } else if p == "rio"@ {
        Some(TerminalKind::Rio)
    } else {
        None
    }
}

/// The terminal that `TERM` names, if it is one whose font can be found out.
pub open spec fn by_term(t: Seq<char>) -> Option<TerminalKind> {
    if t == "xterm-kitty"@ {
        Some(TerminalKind::Kitty)
    } else if t == "foot"@ {
        Some(TerminalKind::Foot)
    } else {
        None
    }
}

/// The terminals to ask, in order: the one that `TERM_PROGRAM` names, then the one that
/// `TERM` names (each where it is set and known).
pub open spec fn terminals_spec(term_program: Option<Seq<char>>, term: Option<Seq<char>>) -> Seq<TerminalKind> {
    let a = match term_program {
        Some(p) => match by_term_program(p) { Some(k) => seq![k], None => Seq::empty() },
        None => Seq::empty(),
    };
    let b = match term {
        Some(t) => match by_term(t) { Some(k) => seq![k], None => Seq::empty() },
        None => Seq::empty(),
    };
    a + b
}

fn is_text(s: &str, lit: &str) -> (b: bool)
    ensures
        b == (s@ == lit@),
{
    crate::inline::is_kind(&s.to_owned(), lit)
}

/// The terminals to ask for their font, in order (see [`terminals_spec`]), from the values
/// of `TERM_PROGRAM` and `TERM`.
pub fn terminals_to_try(term_program: Option<&str>, term: Option<&str>) -> (r: Vec<TerminalKind>)
    ensures
        r@ == terminals_spec(
            match term_program { Some(p) => Some(p@), None => None },
            match term { Some(t) => Some(t@), None => None },
        ),
{
    let mut out: Vec<TerminalKind> = Vec::new();
    match term_program {
        Some(p) => {
            if is_text(p, "ghostty") {
                out.push(TerminalKind::Ghostty);
            } else if is_text(p, "WezTerm") {
                out.push(TerminalKind::WezTerm);
            } else if is_text(p, "rio") {
                out.push(TerminalKind::Rio);
            }
        },
        None => {},
    }
    let ghost a = out@;
    match term {
        Some(t) => {
            if is_text(t, "xterm-kitty") {
                out.push(TerminalKind::Kitty);
            } else if is_text(t, "foot") {
                out.push(TerminalKind::Foot);
            }
        },
        None => {},
    }
    proof {
        assert(out@ =~= terminals_spec(
            match term_program { Some(p) => Some(p@), None => None },
            match term { Some(t) => Some(t@), None => None },
        ));
    }
    out
}

} // verus!

verus! {

/// Each terminal that can be asked is found from the variable that names it, whatever the
/// other says: `TERM_PROGRAM` of `ghostty`, `WezTerm` or `rio` puts that terminal first, and
/// `TERM` of `xterm-kitty` or `foot` puts that terminal last; an unset or unknown
/// `TERM_PROGRAM` adds nothing, and nothing is asked when neither names a terminal.
pub proof fn each_terminal_is_found_from_its_name(term_program: Option<Seq<char>>, term: Option<Seq<char>>)
    ensures
        terminals_spec(Some("ghostty"@), term)[0] == TerminalKind::Ghostty,
        terminals_spec(Some("WezTerm"@), term)[0] == TerminalKind::WezTerm,
        terminals_spec(Some("rio"@), term)[0] == TerminalKind::Rio,
        terminals_spec(term_program, Some("xterm-kitty"@)).last() == TerminalKind::Kitty,
        terminals_spec(term_program, Some("foot"@)).last() == TerminalKind::Foot,
        terminals_spec(None, Some("xterm-kitty"@)) == seq![TerminalKind::Kitty],
        terminals_spec(Some("WezTerm"@), None) == seq![TerminalKind::WezTerm],
        terminals_spec(None, None).len() == 0,
        terminals_spec(term_program, term).len() <= 2,
{
    reveal_strlit("ghostty");
    reveal_strlit("WezTerm");
    reveal_strlit("rio");
    reveal_strlit("xterm-kitty");
    reveal_strlit("foot");
    assert("WezTerm"@ != "ghostty"@) by {
        assert("WezTerm"@[0] != "ghostty"@[0]);
    }
    assert("rio"@ != "ghostty"@) by {
        assert("rio"@.len() != "ghostty"@.len());
    }
    assert("rio"@ != "WezTerm"@) by {
        assert("rio"@.len() != "WezTerm"@.len());
    }
    assert("foot"@ != "xterm-kitty"@) by {
        assert("foot"@.len() != "xterm-kitty"@.len());
    }
    let a = terminals_spec(Some("ghostty"@), term);
    assert(a[0] == TerminalKind::Ghostty);
    let b = terminals_spec(Some("WezTerm"@), term);
    assert(b[0] == TerminalKind::WezTerm);
    let c = terminals_spec(Some("rio"@), term);
    assert(c[0] == TerminalKind::Rio);
    assert(terminals_spec(Some("WezTerm"@), None) =~= seq![TerminalKind::WezTerm]);
    assert(terminals_spec(None, Some("xterm-kitty"@)) =~= seq![TerminalKind::Kitty]);
}

} // verus!
