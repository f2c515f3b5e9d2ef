//! Time bounds given by the user: an RFC 3339 timestamp, or a relative span such as
//! `30m`, `1h` or `2d` counted back from now.
use vstd::prelude::*;
use crate::text::{to_chars, trim_chars, trim_seq, string_from_chars, opt_view};
use crate::number::{parse_i64, parse_i64_spec};
use crate::fold::is_ascii_char;
use crate::instant::{
    rfc3339_instant, utc_rfc3339, opt_instant, clock_outcome, max_timestamp, min_timestamp,
    instant_of, clock_now, utc_text,
};

verus! {

/// The unit letter that ends a relative span.
#[derive(Clone, Copy, Debug, PartialEq, Eq)]
pub enum TimeUnit {
    Seconds,
    Minutes,
    Hours,
    Days,
}

/// The unit that a letter names: `s`, `m`, `h` or `d`.
pub open spec fn unit_of(c: char) -> Option<TimeUnit> {
    if c == 's' {
        Some(TimeUnit::Seconds)
    } else if c == 'm' {
        Some(TimeUnit::Minutes)
    } else if c == 'h' {
        Some(TimeUnit::Hours)
    } else if c == 'd' {
        Some(TimeUnit::Days)
    } else {
        None
    }
}

/// The length of one unit in seconds.
pub open spec fn unit_seconds(u: TimeUnit) -> int {
    match u {
        TimeUnit::Seconds => 1,
        TimeUnit::Minutes => 60,
        TimeUnit::Hours => 3600,
        TimeUnit::Days => 86400,
    }
}

/// A relative span written as a decimal `i64` followed by a unit letter, read from a
/// trimmed string.
pub open spec fn relative_since(t: Seq<char>) -> Option<(int, TimeUnit)> {
    if t.len() == 0 {
        None
    } else {
        match (parse_i64_spec(t.drop_last()), unit_of(t.last())) {
            (Some(n), Some(u)) => Some((n, u)),
            _ => None,
        }
    }
}

/// The largest span, in seconds, that a `chrono::TimeDelta` holds as whole seconds
/// (`i64::MAX` milliseconds); `TimeDelta::seconds`, `minutes`, `hours` and `days` refuse a
/// longer one.
pub open spec fn max_span_seconds() -> int {
    9_223_372_036_854_775
}

/// The inputs that a time bound accepts: once trimmed, it is empty or ends in an ASCII
/// character (the text is cut before its last byte), and a relative span stays within
/// `max_span_seconds` (a longer one is no duration at all).
pub open spec fn since_accepted(s: Seq<char>) -> bool {
    let t = trim_seq(s);
    &&& (t.len() == 0 || is_ascii_char(t.last()))
    &&& match relative_since(t) {
        Some((n, u)) => -max_span_seconds() <= n * unit_seconds(u) <= max_span_seconds(),
        None => true,
    }
}

/// `DateTime::parse_from_rfc3339` accepts `s`.
pub open spec fn rfc3339_accepts(s: Seq<char>) -> bool {
    rfc3339_instant(s) is Some
}

/// The instant `n` units before `now`.
pub open spec fn span_before(now: (int, int), n: int, u: TimeUnit) -> (int, int) {
    (now.0 - n * unit_seconds(u), now.1)
}

/// The timestamp text that a time bound stands for, given what a read of the clock gave: an
/// RFC 3339 timestamp stands for itself (trimmed); a relative span gives the UTC RFC 3339
/// text of the instant that far before the reading, where `chrono` represents that instant,
/// and nothing where the clock could not be read; anything else gives none.
pub open spec fn since_text(s: Seq<char>, now: Option<(int, int)>) -> Option<Seq<char>> {
    let t = trim_seq(s);
    if rfc3339_accepts(t) {
        Some(t)
    } else {
        match (relative_since(t), now) {
            (Some((n, u)), Some(c)) => {
                let i = span_before(c, n, u);
                if min_timestamp() <= i.0 <= max_timestamp() {
                    Some(utc_rfc3339(i.0, i.1))
                } else {
                    None
                }
            },
            _ => None,
        }
    }
}

/// The instant that a time bound names, given what a read of the clock gave: that of an RFC
/// 3339 timestamp, or the instant a relative span before the reading (none where the clock
/// could not be read); none for anything else.
pub open spec fn since_instant(s: Seq<char>, now: Option<(int, int)>) -> Option<(int, int)> {
    let t = trim_seq(s);
    match rfc3339_instant(t) {
        Some(i) => Some(i),
        None => match (relative_since(t), now) {
            (Some((n, u)), Some(c)) => Some(span_before(c, n, u)),
            _ => None,
        },
    }
}

/// A time bound depends on the clock: it is a relative span, not an RFC 3339 timestamp.
pub open spec fn since_reads_clock(s: Seq<char>) -> bool {
    let t = trim_seq(s);
    !rfc3339_accepts(t) && relative_since(t) is Some
}

/// The number of seconds in `n` units.
pub fn span_seconds(n: i64, u: TimeUnit) -> (s: i64)
    requires
        -max_span_seconds() <= n * unit_seconds(u) <= max_span_seconds(),
    ensures
        s == n * unit_seconds(u),
{
    match u {
        TimeUnit::Seconds => n,
        TimeUnit::Minutes => n * 60,
        TimeUnit::Hours => n * 3600,
        TimeUnit::Days => n * 86400,
    }
}

/// The unit that a letter names.
fn unit_letter(c: char) -> (r: Option<TimeUnit>)
    ensures
        r == unit_of(c),
{
    if c == 's' {
        Some(TimeUnit::Seconds)
    } else if c == 'm' {
        Some(TimeUnit::Minutes)
    } else if c == 'h' {
        Some(TimeUnit::Hours)
    } else if c == 'd' {
        Some(TimeUnit::Days)
    } else {
        None
    }
}

/// A relative span read from trimmed text: the decimal `i64` before the last character
/// and the unit that the last character names.
fn read_span(t: &Vec<char>) -> (r: Option<(i64, TimeUnit)>)
    ensures
        r is Some <==> relative_since(t@) is Some,
        r matches Some((m, u)) ==> relative_since(t@) == Some((m as int, u)),
{
    if t.len() == 0 {
        return None;
    }
    let last = t[t.len() - 1];
    let mut num: Vec<char> = Vec::new();
    let mut i: usize = 0;
    while i < t.len() - 1
        invariant
            t@.len() > 0,
            i + 1 <= t@.len(),
            num@ == t@.subrange(0, i as int),
        decreases t@.len() - i,
    {
        num.push(t[i]);
        i = i + 1;
        assert(num@ =~= t@.subrange(0, i as int));
    }
    assert(num@ =~= t@.drop_last());
    match (parse_i64(&num), unit_letter(last)) {
        (Some(n), Some(u)) => Some((n, u)),
        _ => None,
    }
}

/// Whether a time bound is one that `parse_since` accepts.
pub fn since_is_accepted(s: &str) -> (r: bool)
    ensures
        r == since_accepted(s@),
{
    let chars = to_chars(s);
    let t = trim_chars(&chars);
    if t.len() == 0 {
        assert(relative_since(t@) is None);
        return true;
    }
    let last = t[t.len() - 1];
    assert(t@.last() == last);
    if !((last as u32) < 0x80) {
        assert(!is_ascii_char(t@.last()));
        return false;
    }
    assert(is_ascii_char(t@.last()));
    match read_span(&t) {
        Some((n, u)) => {
            let bound: i64 = 9_223_372_036_854_775;
            match u {
                TimeUnit::Seconds => -bound <= n && n <= bound,
                TimeUnit::Minutes => -bound / 60 <= n && n <= bound / 60,
                TimeUnit::Hours => -bound / 3600 <= n && n <= bound / 3600,
                TimeUnit::Days => -bound / 86400 <= n && n <= bound / 86400,
            }
        },
        None => true,
    }
}

/// The form of a time bound.
#[derive(Debug, PartialEq, Eq)]
pub enum SinceForm {
    /// An RFC 3339 timestamp, trimmed.
    Timestamp(String),
    /// A span of so many units before now.
    Span(i64, TimeUnit),
    /// Neither.
    Unrecognized,
}

/// Reads a time bound, given whether `DateTime::parse_from_rfc3339` accepts its trimmed text
/// (`is_rfc3339`): such a text is a timestamp; otherwise a decimal `i64` followed by `s`, `m`,
/// `h` or `d` is a span of seconds, minutes, hours or days; anything else is unrecognized.
pub fn read_since(since: &str, is_rfc3339: bool) -> (r: SinceForm)
    ensures
        is_rfc3339 ==> (r matches SinceForm::Timestamp(t) && t@ == trim_seq(since@)),
        !is_rfc3339 ==> match relative_since(trim_seq(since@)) {
            Some((n, u)) => r matches SinceForm::Span(m, v) && m == n && v == u,
            None => r is Unrecognized,
        },
{
    let chars = to_chars(since);
    let t = trim_chars(&chars);
    if is_rfc3339 {
        return SinceForm::Timestamp(string_from_chars(&t));
    }
    match read_span(&t) {
        Some((n, u)) => SinceForm::Span(n, u),
        None => SinceForm::Unrecognized,
    }
}

/// Whether a time bound depends on the clock (a relative span, not an RFC 3339 timestamp).
pub fn since_needs_clock(since: &str) -> (r: bool)
    ensures
        r == since_reads_clock(since@),
{
    let chars = to_chars(since);
    let t = trim_chars(&chars);
    let trimmed = string_from_chars(&t);
    if instant_of(trimmed.as_str()).is_some() {
        return false;
    }
    read_span(&t).is_some()
}

/// The instant that a time bound names, given what a read of the clock gave (`now`): an RFC
/// 3339 timestamp names its own instant, whatever its offset; a relative span such as `1h`
/// names the instant that far before the reading; anything else names none.
pub fn since_instant_at(since: &str, now: Option<(i64, u32)>) -> (r: Option<(i64, u32)>)
    requires
        since_accepted(since@),
        clock_outcome(opt_instant(now)),
    ensures
        opt_instant(r) == since_instant(since@, opt_instant(now)),
{
    let chars = to_chars(since);
    let t = trim_chars(&chars);
    let trimmed = string_from_chars(&t);
    match instant_of(trimmed.as_str()) {
        Some(i) => Some(i),
        None => match (read_span(&t), now) {
            (Some((n, u)), Some(c)) => Some((c.0 - span_seconds(n, u), c.1)),
            _ => None,
        },
    }
}

/// Turns a time bound into a timestamp, given what a read of the clock gave (`now`): an RFC
/// 3339 timestamp is kept (trimmed), a relative span such as `1h` gives the UTC RFC 3339 text
/// of the instant that far before the reading, and anything else gives `None`.
pub fn parse_since_at(since: &str, now: Option<(i64, u32)>) -> (r: Option<String>)
    requires
        since_accepted(since@),
        clock_outcome(opt_instant(now)),
    ensures
        opt_view(r) == since_text(since@, opt_instant(now)),
{
    let chars = to_chars(since);
    let t = trim_chars(&chars);
    let trimmed = string_from_chars(&t);
    let is_rfc3339 = instant_of(trimmed.as_str()).is_some();
    match read_since(since, is_rfc3339) {
        SinceForm::Timestamp(ts) => Some(ts),
        SinceForm::Span(n, u) => match now {
            Some(c) => {
                let secs = c.0 - span_seconds(n, u);
                utc_text(secs, c.1)
            },
            None => None,
        },
        SinceForm::Unrecognized => None,
    }
}

/// Turns a time bound into a timestamp to compare against: an RFC 3339 timestamp is kept
/// (trimmed), a relative span such as `1h` is counted back from the clock (read only for a
/// span) and written as UTC RFC 3339 text, and anything else gives `None`. A span gives
/// `None` too where the clock reads before the epoch or the instant lies outside `chrono`'s
/// years.
pub fn parse_since(since: &str) -> (r: Option<String>)
    requires
        since_accepted(since@),
    ensures
        exists|now: Option<(int, int)>|
            clock_outcome(now) && opt_view(r) == #[trigger] since_text(since@, now),
{
    let now: Option<(i64, u32)> = if since_needs_clock(since) {
        clock_now()
    } else {
        None
    };
    parse_since_at(since, now)
}

} // verus!
