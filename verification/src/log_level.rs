//! How much is logged.

use tracing::metadata::ParseLevelError;
use tracing::Level;
use vstd::prelude::*;

use crate::config::{ConfigError, ConfigErrorView};
#[allow(unused_imports)]
use crate::text;

verus! {

/// How much is logged, from the least to the most.
#[derive(Clone, Copy, Debug, PartialEq, Eq, Structural)]
pub enum LogLevel {
    Error,
    Warn,
    Info,
    Debug,
    Trace,
}

impl LogLevel {
    /// The number by which a level can be given.
    pub open spec fn number(self) -> nat {
        match self {
            LogLevel::Error => 1,
            LogLevel::Warn => 2,
            LogLevel::Info => 3,
            LogLevel::Debug => 4,
            LogLevel::Trace => 5,
        }
    }

    /// The name by which a level can be given.
    pub open spec fn name(self) -> Seq<char> {
        match self {
            LogLevel::Error => "error"@,
            LogLevel::Warn => "warn"@,
            LogLevel::Info => "info"@,
            LogLevel::Debug => "debug"@,
            LogLevel::Trace => "trace"@,
        }
    }
}

/// The text behind an optional leading `+`.
pub open spec fn unsigned_part(t: Seq<char>) -> Seq<char> {
    if t.len() > 0 && t[0] == '+' {
        t.skip(1)
    } else {
        t
    }
}

/// Whether `t` is `n` in decimal digits, behind an optional `+`.
pub open spec fn is_number(t: Seq<char>, n: nat) -> bool {
    let digits = unsigned_part(t);
    &&& digits.len() > 0
    &&& forall|i: int| 0 <= i < digits.len() ==> text::is_digit(#[trigger] digits[i])
    &&& text::digits_value(digits) == n
}

/// A character with an ASCII capital letter made small.
pub open spec fn ascii_lower(c: char) -> char {
    if 'A' <= c <= 'Z' {
        (c as nat + 32) as char
    } else {
        c
    }
}

/// Whether `t` and `name` are the same text but for the case of ASCII letters.
pub open spec fn is_name(t: Seq<char>, name: Seq<char>) -> bool {
    t.len() == name.len() && forall|i: int|
        0 <= i < t.len() ==> ascii_lower(#[trigger] t[i]) == ascii_lower(name[i])
}

/// Whether `t` gives the level `l`, by its number or by its name.
pub open spec fn gives_level(t: Seq<char>, l: LogLevel) -> bool {
    is_number(t, l.number()) || is_name(t, l.name())
}

/// Whether `t` gives some level.
pub open spec fn gives_some_level(t: Seq<char>) -> bool {
    exists|l: LogLevel| gives_level(t, l)
}

/// The error of `tracing`'s level parser; nothing is known of its values.
#[verifier::external_type_specification]
#[verifier::external_body]
pub struct ExParseLevelError(tracing::metadata::ParseLevelError);

/// Calls `tracing::Level`'s `FromStr::from_str`, by way of `str::parse`.
/// Claimed of it: it accepts a level's number, in decimal digits behind an
/// optional `+`, and a level's name in any mixture of ASCII cases, each as that
/// level, and accepts nothing else.
#[verifier::external_body]
fn parse_level(t: &str) -> (r: Result<LogLevel, ParseLevelError>)
    ensures
        match r {
            Ok(l) => gives_level(t@, l),
            Err(_) => !gives_some_level(t@),
        },
{
    match t.parse::<Level>() {
        Ok(Level::ERROR) => Ok(LogLevel::Error),
        Ok(Level::WARN) => Ok(LogLevel::Warn),
        Ok(Level::INFO) => Ok(LogLevel::Info),
        Ok(Level::DEBUG) => Ok(LogLevel::Debug),
        Ok(Level::TRACE) => Ok(LogLevel::Trace),
        Err(e) => Err(e),
    }
}

/// The level to log at: the one from the command line, else the one from the
/// configuration file, else `Info`. A level in the file that is none is an
/// error, also where the command line gives one.
pub fn effective_level(cli: Option<LogLevel>, config: &Option<String>) -> (r: Result<
    LogLevel,
    ConfigError,
>)
    ensures
        match config.deep_view() {
            Some(t) if !gives_some_level(t) => r matches Err(e) && e@
                == ConfigErrorView::InvalidLogLevel,
            stored => r matches Ok(level) && match (cli, stored) {
                (Some(l), _) => level == l,
                (None, Some(t)) => gives_level(t, level),
                (None, None) => level == LogLevel::Info,
            },
        },
{
    let stored: Option<LogLevel> = match config {
        None => None,
        Some(t) => match parse_level(t.as_str()) {
            Ok(l) => Some(l),
            Err(_) => {
                return Err(ConfigError::InvalidLogLevel);
            },
        },
    };
    match (cli, stored) {
        (Some(l), _) => Ok(l),
        (None, Some(l)) => Ok(l),
        (None, None) => Ok(LogLevel::Info),
    }
}

/// A text gives at most one level.
pub proof fn a_text_gives_one_level(t: Seq<char>, a: LogLevel, b: LogLevel)
    requires
        gives_level(t, a),
        gives_level(t, b),
    ensures
        a == b,
{
    lemma_names();
    if is_number(t, a.number()) && is_name(t, b.name()) {
        lemma_number_is_no_name(t, a.number(), b);
    }
    if is_number(t, b.number()) && is_name(t, a.name()) {
        lemma_number_is_no_name(t, b.number(), a);
    }
    if is_name(t, a.name()) && is_name(t, b.name()) {
        assert(ascii_lower(t[0]) == a.name()[0] && ascii_lower(t[0]) == b.name()[0]);
    }
}

/// The length and the first letter of each name.
proof fn lemma_names()
    ensures
        forall|l: LogLevel|
            (#[trigger] l.name()).len() > 0 && 'a' <= l.name()[0] <= 'z' && ascii_lower(l.name()[0])
                == l.name()[0],
        forall|a: LogLevel, b: LogLevel|
            (#[trigger] a.name())[0] == (#[trigger] b.name())[0] ==> a == b,
{
    reveal_strlit("error");
    reveal_strlit("warn");
    reveal_strlit("info");
    reveal_strlit("debug");
    reveal_strlit("trace");
}

/// A number is never a level's name.
proof fn lemma_number_is_no_name(t: Seq<char>, n: nat, l: LogLevel)
    requires
        is_number(t, n),
    ensures
        !is_name(t, l.name()),
{
    lemma_names();
    if is_name(t, l.name()) {
        assert(ascii_lower(t[0]) == l.name()[0]);
        assert(t[0] != '+');
        assert(text::is_digit(unsigned_part(t)[0]));
    }
}

/// Texts that differ in the case of ASCII letters alone give the same level.
pub proof fn case_does_not_matter(t: Seq<char>, u: Seq<char>, l: LogLevel)
    requires
        is_name(t, u),
    ensures
        gives_level(t, l) == gives_level(u, l),
{
    assert(is_name(u, t)) by {
        assert forall|i: int| 0 <= i < u.len() implies ascii_lower(#[trigger] u[i]) == ascii_lower(
            t[i],
        ) by {
            assert(ascii_lower(t[i]) == ascii_lower(u[i]));
        }
    }
    if is_name(t, l.name()) {
        lemma_same_name(u, t, l.name());
    }
    if is_name(u, l.name()) {
        lemma_same_name(t, u, l.name());
    }
    if is_number(t, l.number()) {
        lemma_number_in_any_case(t, u, l.number());
    }
    if is_number(u, l.number()) {
        lemma_number_in_any_case(u, t, l.number());
    }
}

/// A text that differs from a name in case alone is that name.
proof fn lemma_same_name(t: Seq<char>, u: Seq<char>, name: Seq<char>)
    requires
        is_name(t, u),
        is_name(u, name),
    ensures
        is_name(t, name),
{
    assert forall|i: int| 0 <= i < t.len() implies ascii_lower(#[trigger] t[i]) == ascii_lower(
        name[i],
    ) by {
        assert(ascii_lower(u[i]) == ascii_lower(name[i]));
    }
}

/// A number has no case.
proof fn lemma_number_in_any_case(t: Seq<char>, u: Seq<char>, n: nat)
    requires
        is_name(t, u),
        is_number(t, n),
    ensures
        u == t,
{
    assert forall|i: int| 0 <= i < t.len() implies t[i] == u[i] by {
        let digits = unsigned_part(t);
        assert(ascii_lower(t[i]) == ascii_lower(u[i]));
        if t[0] == '+' && i > 0 {
            assert(text::is_digit(digits[i - 1]));
        } else if t[0] != '+' {
            assert(text::is_digit(digits[i]));
        }
    }
    assert(t =~= u);
}

/// A level is given by its number, counted from the least logged to the most, or
/// by its name, and by nothing else.
pub proof fn levels_count_from_the_least_logged(t: Seq<char>)
    ensures
        gives_level(t, LogLevel::Error) <==> is_number(t, 1) || is_name(t, "error"@),
        gives_level(t, LogLevel::Warn) <==> is_number(t, 2) || is_name(t, "warn"@),
        gives_level(t, LogLevel::Info) <==> is_number(t, 3) || is_name(t, "info"@),
        gives_level(t, LogLevel::Debug) <==> is_number(t, 4) || is_name(t, "debug"@),
        gives_level(t, LogLevel::Trace) <==> is_number(t, 5) || is_name(t, "trace"@),
{
}

} // verus!
