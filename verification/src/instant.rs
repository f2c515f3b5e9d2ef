//! Instants in time, as seconds since the Unix epoch and nanoseconds within the second: read
//! from RFC 3339 text, from the system clock, and written back as UTC RFC 3339 text.
use vstd::prelude::*;

verus! {

/// The instant that `chrono::DateTime::parse_from_rfc3339` reads from `s`, as its
/// `timestamp()` and `timestamp_subsec_nanos()`; `None` where it refuses the text. It
/// depends on the text alone.
pub uninterp spec fn rfc3339_instant(s: Seq<char>) -> Option<(int, int)>;

/// What `to_rfc3339` writes for the UTC date and time `DateTime::from_timestamp(secs, nanos)`.
pub uninterp spec fn utc_rfc3339(secs: int, nanos: int) -> Seq<char>;

/// Instant `a` is not later than instant `b`.
pub open spec fn instant_le(a: (int, int), b: (int, int)) -> bool {
    a.0 < b.0 || (a.0 == b.0 && a.1 <= b.1)
}

/// An optional executable instant as plain integers.
pub open spec fn opt_instant(o: Option<(i64, u32)>) -> Option<(int, int)> {
    match o {
        Some(p) => Some((p.0 as int, p.1 as int)),
        None => None,
    }
}

/// The seconds since the epoch of the last second that `chrono` represents (the end of its
/// year 262142).
pub open spec fn max_timestamp() -> int {
    8_210_266_876_799
}

/// The seconds since the epoch of the first second that `chrono` represents (the start of its
/// year -262143).
pub open spec fn min_timestamp() -> int {
    -8_334_601_315_200
}

/// A reading of the system clock: not before the Unix epoch, within `chrono`'s years, and
/// with fewer than a second of nanoseconds.
pub open spec fn clock_reading(now: (int, int)) -> bool {
    0 <= now.0 <= max_timestamp() && 0 <= now.1 < 1_000_000_000
}

/// What a read of the clock gave: a reading, or `None` where the clock could not be read.
pub open spec fn clock_outcome(now: Option<(int, int)>) -> bool {
    now matches Some(p) ==> clock_reading(p)
}

/// A UTC RFC 3339 timestamp as `to_rfc3339` writes one: at least a full date and time, and
/// the offset `+00:00` at the end.
pub open spec fn utc_form(t: Seq<char>) -> bool {
    t.len() >= 25 && t.subrange(t.len() - 6, t.len() as int) == seq!['+', '0', '0', ':', '0', '0']
}

/// `chrono::DateTime::parse_from_rfc3339(s)`, read as the instant's `timestamp()` and
/// `timestamp_subsec_nanos()`; the result is named `rfc3339_instant`.
#[verifier::external_body]
pub(crate) fn instant_of(s: &str) -> (r: Option<(i64, u32)>)
    ensures
        opt_instant(r) == rfc3339_instant(s@),
{
    match chrono::DateTime::parse_from_rfc3339(s) {
        Ok(d) => Some((d.timestamp(), d.timestamp_subsec_nanos())),
        Err(_) => None,
    }
}

/// `std::time::SystemTime::now().duration_since(UNIX_EPOCH)`, read as whole seconds and
/// nanoseconds; `None` where the clock reads before the epoch (`duration_since` then gives an
/// error). The reading depends on the clock, so only what holds of every reading is claimed:
/// `Duration::subsec_nanos` is always below one second.
#[verifier::external_body]
fn system_clock() -> (r: Option<(u64, u32)>)
    ensures
        r matches Some(p) ==> p.1 < 1_000_000_000,
{
    match std::time::SystemTime::now().duration_since(std::time::UNIX_EPOCH) {
        Ok(d) => Some((d.as_secs(), d.subsec_nanos())),
        Err(_) => None,
    }
}

/// The clock's reading as an instant, or `None` where the clock reads before the epoch or
/// after the last second that `chrono` represents.
pub fn clock_now() -> (r: Option<(i64, u32)>)
    ensures
        clock_outcome(opt_instant(r)),
{
    match system_clock() {
        Some((secs, nanos)) => {
            if secs <= 8_210_266_876_799 {
                Some((secs as i64, nanos))
            } else {
                None
            }
        },
        None => None,
    }
}

/// `chrono::DateTime::from_timestamp(secs, nanos)` written by `to_rfc3339`; `None` where
/// `from_timestamp` refuses the instant. The text is named `utc_rfc3339`. With nanoseconds
/// below one second, `from_timestamp` accepts exactly the seconds of the days from the start
/// of year -262143 to the end of year 262142; the text ends in the offset `+00:00` that
/// `to_rfc3339` writes for UTC, after a date and time of at least 19 characters.
#[verifier::external_body]
pub(crate) fn utc_text(secs: i64, nanos: u32) -> (r: Option<String>)
    ensures
        nanos < 1_000_000_000 ==> (r is Some <==> min_timestamp() <= secs <= max_timestamp()),
        r matches Some(t) ==> t@ == utc_rfc3339(secs as int, nanos as int) && utc_form(t@),
{
    match chrono::DateTime::from_timestamp(secs, nanos) {
        Some(d) => Some(d.to_rfc3339()),
        None => None,
    }
}

/// Whether instant `a` is not later than instant `b`.
pub fn instant_not_after(a: (i64, u32), b: (i64, u32)) -> (r: bool)
    ensures
        r == instant_le((a.0 as int, a.1 as int), (b.0 as int, b.1 as int)),
{
    a.0 < b.0 || (a.0 == b.0 && a.1 <= b.1)
}

} // verus!
