//! Log levels named in settings.

use vstd::prelude::*;

use crate::text::chars_of;

verus! {

/// How much the program logs, from nothing to everything.
#[derive(Clone, Copy, Debug, PartialEq, Eq, Structural)]
pub enum LogLevel {
    Off,
    Error,
    Warn,
    Info,
    Debug,
    Trace,
}

/// A character of Unicode's White_Space property.
pub open spec fn is_white_space(c: char) -> bool {
    ('\u{9}' <= c && c <= '\u{d}') || c == ' ' || c == '\u{85}' || c == '\u{a0}' || c == '\u{1680}'
        || ('\u{2000}' <= c && c <= '\u{200a}') || c == '\u{2028}' || c == '\u{2029}' || c
        == '\u{202f}' || c == '\u{205f}' || c == '\u{3000}'
}

/// `s` without its leading white space.
pub open spec fn trim_start(s: Seq<char>) -> Seq<char>
    decreases s.len(),
{
    if s.len() > 0 && is_white_space(s[0]) {
        trim_start(s.skip(1))
    } else {
        s
    }
}

/// `s` without its trailing white space.
pub open spec fn trim_end(s: Seq<char>) -> Seq<char>
    decreases s.len(),
{
    if s.len() > 0 && is_white_space(s.last()) {
        trim_end(s.drop_last())
    } else {
        s
    }
}

/// `s` with leading and trailing white space removed.
pub open spec fn trimmed(s: Seq<char>) -> Seq<char> {
    trim_end(trim_start(s))
}

/// Relies on `str::trim`: the text without its leading and trailing
/// characters of the White_Space property.
#[verifier::external_body]
fn trim(s: &str) -> (r: &str)
    ensures
        r@ == trimmed(s@),
{
    s.trim()
}

/// The code of `c` with ASCII upper case letters taken to lower case.
pub open spec fn ascii_lower(c: char) -> int {
    if 'A' <= c && c <= 'Z' {
        (c as u32) + 32
    } else {
        c as int
    }
}

/// Equality up to the case of ASCII letters.
pub open spec fn eq_ignore_ascii_case(a: Seq<char>, b: Seq<char>) -> bool {
    a.len() == b.len() && forall|i: int| 0 <= i < a.len() ==> ascii_lower(a[i]) == ascii_lower(b[i])
}

/// The level a name stands for, in any letter case.
pub open spec fn level_named(s: Seq<char>) -> Option<LogLevel> {
    if eq_ignore_ascii_case(s, seq!['o', 'f', 'f']) {
        Some(LogLevel::Off)
    } else if eq_ignore_ascii_case(s, seq!['e', 'r', 'r', 'o', 'r']) {
        Some(LogLevel::Error)
    } else if eq_ignore_ascii_case(s, seq!['w', 'a', 'r', 'n']) {
        Some(LogLevel::Warn)
    } else if eq_ignore_ascii_case(s, seq!['i', 'n', 'f', 'o']) {
        Some(LogLevel::Info)
    } else if eq_ignore_ascii_case(s, seq!['d', 'e', 'b', 'u', 'g']) {
        Some(LogLevel::Debug)
    } else if eq_ignore_ascii_case(s, seq!['t', 'r', 'a', 'c', 'e']) {
        Some(LogLevel::Trace)
    } else {
        None
    }
}

fn lower(c: char) -> (r: u32)
    ensures
        r == ascii_lower(c),
{
    if 'A' <= c && c <= 'Z' {
        c as u32 + 32
    } else {
        c as u32
    }
}

fn matches_name(s: &Vec<char>, name: &Vec<char>) -> (r: bool)
    ensures
        r == eq_ignore_ascii_case(s@, name@),
{
    if s.len() != name.len() {
        return false;
    }
    let mut i: usize = 0;
    while i < s.len()
        invariant
            s.len() == name.len(),
            i <= s.len(),
            forall|k: int| 0 <= k < i ==> ascii_lower(s@[k]) == ascii_lower(name@[k]),
        decreases s.len() - i,
    {
        if lower(s[i]) != lower(name[i]) {
            return false;
        }
        i += 1;
    }
    true
}

/// The log level named by a setting, ignoring surrounding whitespace and the
/// case of letters; `None` for any other text.
pub fn parse_log_level(var: &str) -> (r: Option<LogLevel>)
    ensures
        r == level_named(trimmed(var@)),
{
    let cs = chars_of(trim(var));
    if matches_name(&cs, &vec!['o', 'f', 'f']) {
        Some(LogLevel::Off)
    } else if matches_name(&cs, &vec!['e', 'r', 'r', 'o', 'r']) {
        Some(LogLevel::Error)
    } else if matches_name(&cs, &vec!['w', 'a', 'r', 'n']) {
        Some(LogLevel::Warn)
    } else if matches_name(&cs, &vec!['i', 'n', 'f', 'o']) {
        Some(LogLevel::Info)
    } else if matches_name(&cs, &vec!['d', 'e', 'b', 'u', 'g']) {
        Some(LogLevel::Debug)
    } else if matches_name(&cs, &vec!['t', 'r', 'a', 'c', 'e']) {
        Some(LogLevel::Trace)
    } else {
        None
    }
}

} // verus!
