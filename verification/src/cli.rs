//! Decisions of the interactive quote client: what a typed line means, what
//! counts as an answer to a ping, and which log level a name selects.
use vstd::prelude::*;
use crate::text::{chars_eq, chars_of, lower_text, lowercase, string_of, trim_chars, trimmed};

verus! {

/// The ASCII lower-case form of a character (others unchanged), by code.
pub open spec fn ascii_lower_code(c: char) -> u32 {
    let u = c as u32;
    if 0x41 <= u && u <= 0x5a {
        (u + 32) as u32
    } else {
        u
    }
}

/// Whether two texts are equal when ASCII letters are compared without case
/// (std's `str::eq_ignore_ascii_case`).
pub open spec fn eq_ignoring_ascii_case(a: Seq<char>, b: Seq<char>) -> bool {
    a.len() == b.len() && forall|i: int| 0 <= i < a.len() ==> ascii_lower_code(#[trigger] a[i]) == ascii_lower_code(b[i])
}

fn lower_code(c: char) -> (r: u32)
    ensures
        r == ascii_lower_code(c),
{
    let u = c as u32;
    if 0x41 <= u && u <= 0x5a {
        u + 32
    } else {
        u
    }
}

/// Compares two texts with ASCII letters taken without case.
pub fn eq_ignore_ascii_case(a: &[char], b: &[char]) -> (r: bool)
    ensures
        r == eq_ignoring_ascii_case(a@, b@),
{
    if a.len() != b.len() {
        return false;
    }
    let n = a.len();
    for i in 0..n
        invariant
            n == a@.len(),
            n == b@.len(),
            forall|j: int| 0 <= j < i ==> ascii_lower_code(#[trigger] a@[j]) == ascii_lower_code(b@[j]),
    {
        if lower_code(a[i]) != lower_code(b[i]) {
            return false;
        }
    }
    true
}

/// What a line typed at the client prompt asks for.
pub enum CliInput {
    /// Nothing but whitespace: prompt again.
    Empty,
    /// `EXIT` in any ASCII case: leave the client.
    Exit,
    /// Anything else: send this (trimmed) command to the server.
    Send(String),
}

/// The meaning of a typed line: the trimmed text, nothing when empty, leaving
/// on `EXIT` in any ASCII case, and the command to send otherwise.
pub open spec fn input_meaning(line: Seq<char>) -> Option<Option<Seq<char>>> {
    let t = trimmed(line);
    if t.len() == 0 {
        None
    } else if eq_ignoring_ascii_case(t, "EXIT"@) {
        Some(None)
    } else {
        Some(Some(t))
    }
}

impl CliInput {
    /// `None` for an empty line, `Some(None)` for exit, `Some(Some(c))` for a
    /// command `c`.
    pub open spec fn meaning(&self) -> Option<Option<Seq<char>>> {
        match self {
            CliInput::Empty => None,
            CliInput::Exit => Some(None),
            CliInput::Send(c) => Some(Some(c@)),
        }
    }
}

/// The texts equal to `EXIT` up to ASCII case are the four-character texts
/// whose characters are `e`/`E`, `x`/`X`, `i`/`I` and `t`/`T` (by code).
pub proof fn law_exit_spellings(t: Seq<char>)
    ensures
        eq_ignoring_ascii_case(t, "EXIT"@) <==> (t.len() == 4 && (t[0] as u32 == 0x65 || t[0] as u32 == 0x45) && (
        t[1] as u32 == 0x78 || t[1] as u32 == 0x58) && (t[2] as u32 == 0x69 || t[2] as u32 == 0x49) && (t[3] as u32
            == 0x74 || t[3] as u32 == 0x54)),
{
    reveal_strlit("EXIT");
    let e = "EXIT"@;
    assert(e.len() == 4);
    assert(e[0] == 'E' && e[1] == 'X' && e[2] == 'I' && e[3] == 'T');
    if t.len() == 4 {
        if eq_ignoring_ascii_case(t, e) {
            assert(ascii_lower_code(t[0]) == ascii_lower_code(e[0]));
            assert(ascii_lower_code(t[1]) == ascii_lower_code(e[1]));
            assert(ascii_lower_code(t[2]) == ascii_lower_code(e[2]));
            assert(ascii_lower_code(t[3]) == ascii_lower_code(e[3]));
        }
        if (t[0] as u32 == 0x65 || t[0] as u32 == 0x45) && (t[1] as u32 == 0x78 || t[1] as u32 == 0x58) && (t[2]
            as u32 == 0x69 || t[2] as u32 == 0x49) && (t[3] as u32 == 0x74 || t[3] as u32 == 0x54) {
            assert forall|i: int| 0 <= i < 4 implies ascii_lower_code(#[trigger] t[i]) == ascii_lower_code(e[i]) by {
                if i == 0 {
                } else if i == 1 {
                } else if i == 2 {
                } else {
                }
            }
        }
    }
}

/// A typed line leaves the client only when, trimmed, it is `EXIT` in some
/// ASCII case; an empty line does nothing; any other line is sent to the
/// server as its trimmed text.
pub proof fn law_only_exit_leaves(line: Seq<char>)
    ensures
        input_meaning(line) == Some(None::<Seq<char>>) <==> (trimmed(line).len() > 0 && eq_ignoring_ascii_case(
            trimmed(line),
            "EXIT"@,
        )),
        input_meaning(line) is None <==> trimmed(line).len() == 0,
        trimmed(line).len() > 0 && !eq_ignoring_ascii_case(trimmed(line), "EXIT"@) ==> input_meaning(line) == Some(
            Some(trimmed(line)),
        ),
{
}

/// Reads a line typed at the prompt.
pub fn classify_input(line: &str) -> (r: CliInput)
    ensures
        r.meaning() == input_meaning(line@),
{
    let t = trim_chars(chars_of(line).as_slice());
    if t.len() == 0 {
        CliInput::Empty
    } else if eq_ignore_ascii_case(t.as_slice(), chars_of("EXIT").as_slice()) {
        CliInput::Exit
    } else {
        CliInput::Send(string_of(t.as_slice()))
    }
}

/// Whether a line from the server answers a ping: `PONG` once trimmed.
pub fn is_pong(reply: &str) -> (b: bool)
    ensures
        b == (trimmed(reply@) == "PONG"@),
{
    let t = trim_chars(chars_of(reply).as_slice());
    chars_eq(t.as_slice(), chars_of("PONG").as_slice())
}

/// Logging levels, from least to most verbose.
#[derive(Clone, Copy, Debug, PartialEq, Eq, Structural)]
pub enum LogLevel {
    Error,
    Warn,
    Info,
    Debug,
    Trace,
}

/// The level a name selects: the name in lower case (ASCII letters lowered
/// for an ASCII name) is one of `error`,
/// `warn`, `info`, `debug` and `trace`; any other name selects `Info`.
pub open spec fn level_named(name: Seq<char>) -> LogLevel {
    let n = lower_text(name);
    if n == "error"@ {
        LogLevel::Error
    } else if n == "warn"@ {
        LogLevel::Warn
    } else if n == "debug"@ {
        LogLevel::Debug
    } else if n == "trace"@ {
        LogLevel::Trace
    } else {
        LogLevel::Info
    }
}

/// The log level a command-line name selects.
pub fn parse_log_level(name: &str) -> (l: LogLevel)
    ensures
        l == level_named(name@),
{
    let n = lowercase(chars_of(name).as_slice());
    if chars_eq(n.as_slice(), chars_of("error").as_slice()) {
        LogLevel::Error
    } else if chars_eq(n.as_slice(), chars_of("warn").as_slice()) {
        LogLevel::Warn
    } else if chars_eq(n.as_slice(), chars_of("debug").as_slice()) {
        LogLevel::Debug
    } else if chars_eq(n.as_slice(), chars_of("trace").as_slice()) {
        LogLevel::Trace
    } else {
        LogLevel::Info
    }
}

} // verus!
