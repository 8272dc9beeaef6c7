//! The current date and its text forms, from the system clock and the
//! `chrono` crate.

use vstd::prelude::*;

verus! {

/// An instant as `chrono` holds it: whole seconds since 1970-01-01 UTC and
/// the nanoseconds past that second.
#[derive(Clone, Copy, Debug, PartialEq, Eq, Structural)]
pub struct Timestamp {
    pub secs: i64,
    pub nanos: u32,
}

/// The earliest instant `chrono` holds: January 1 of the year -262143, UTC.
pub open spec fn earliest_chrono_second() -> int {
    -8_334_601_228_800
}

/// The last second `chrono` holds: December 31 of the year 262142,
/// 23:59:59 UTC.
pub open spec fn latest_chrono_second() -> int {
    8_210_266_876_799
}

/// Whether `chrono::DateTime::from_timestamp(secs, nanos)` gives a date:
/// the second lies in `chrono`'s range of dates, and the nanoseconds are
/// under one second, or under two in the last second of a minute (a leap
/// second).
pub open spec fn chrono_represents(secs: int, nanos: int) -> bool {
    &&& earliest_chrono_second() <= secs <= latest_chrono_second()
    &&& 0 <= nanos < 2_000_000_000
    &&& (nanos < 1_000_000_000 || (secs % 86400) % 60 == 59)
}

/// What `format(fmt).to_string()` writes for the `chrono` date of
/// `(secs, nanos)`.
pub uninterp spec fn chrono_format(secs: int, nanos: int, fmt: Seq<char>) -> Seq<char>;

/// Whether a character is an ASCII decimal digit.
pub open spec fn is_ascii_digit(c: char) -> bool {
    48 <= (c as int) <= 57
}

/// The value of a two-character run of decimal digits.
pub open spec fn two_digit_value(s: Seq<char>) -> int {
    ((s[0] as int) - 48) * 10 + ((s[1] as int) - 48)
}

/// Two decimal digits whose value lies in `lo..=hi`.
pub open spec fn is_two_digit_in(s: Seq<char>, lo: int, hi: int) -> bool {
    &&& s.len() == 2
    &&& is_ascii_digit(s[0])
    &&& is_ascii_digit(s[1])
    &&& lo <= two_digit_value(s) <= hi
}

/// A year as `%Y` writes it: at least four characters.
pub open spec fn is_year_text(s: Seq<char>) -> bool {
    s.len() >= 4
}

/// A month as `%m` writes it: "01" to "12".
pub open spec fn is_month_text(s: Seq<char>) -> bool {
    is_two_digit_in(s, 1, 12)
}

/// A day of the month as `%d` writes it: "01" to "31".
pub open spec fn is_day_text(s: Seq<char>) -> bool {
    is_two_digit_in(s, 1, 31)
}

/// `std::time::SystemTime`, a reading of the system clock, carried opaquely.
#[verifier::external_type_specification]
#[verifier::external_body]
pub struct ExSystemTime(std::time::SystemTime);

/// Calls `SystemTime::now`. Which time it is depends on the clock, so
/// nothing is stated of it.
#[verifier::external_body]
fn system_now() -> (res: std::time::SystemTime) {
    std::time::SystemTime::now()
}

/// Calls `SystemTime::duration_since(UNIX_EPOCH)` and reads the duration
/// as whole seconds and the nanoseconds past them. It fails (`None`) when
/// the reading is before 1970; the documentation of `subsec_nanos` gives
/// that the nanoseconds stay below one second.
#[verifier::external_body]
fn since_unix_epoch(t: &std::time::SystemTime) -> (res: Option<(u64, u32)>)
    ensures
        res matches Some((s, n)) ==> n < 1_000_000_000,
{
    t.duration_since(std::time::UNIX_EPOCH).ok().map(|d| (d.as_secs(), d.subsec_nanos()))
}

/// Calls `chrono::DateTime::from_timestamp` and tells whether it gives a
/// date: exactly `chrono_represents` of the two numbers.
#[verifier::external_body]
fn chrono_accepts(secs: i64, nanos: u32) -> (res: bool)
    ensures
        res == chrono_represents(secs as int, nanos as int),
{
    chrono::DateTime::from_timestamp(secs, nanos).is_some()
}

/// The current instant (UTC), read as `chrono::Utc::now` reads it: the
/// system clock's time since 1970 turned into a `chrono` date. `None` when
/// the clock reads a time before 1970 or one `chrono` cannot hold (where
/// `Utc::now` would panic).
pub(crate) fn utc_now() -> (res: Option<Timestamp>)
    ensures
        res matches Some(t) ==> is_valid_timestamp(t),
{
    let now = system_now();
    match since_unix_epoch(&now) {
        None => None,
        Some((secs, nanos)) => {
            if secs <= 0x7fff_ffff_ffff_ffffu64 && chrono_accepts(secs as i64, nanos) {
                Some(Timestamp { secs: secs as i64, nanos })
            } else {
                None
            }
        },
    }
}

/// What `DateTime::to_rfc3339` writes for the `chrono` date of
/// `(secs, nanos)`.
pub uninterp spec fn rfc3339_text(secs: int, nanos: int) -> Seq<char>;

/// The instant, as `(timestamp, timestamp_subsec_nanos)`, that
/// `DateTime::parse_from_rfc3339` reads from a text; `None` when it refuses
/// the text.
pub uninterp spec fn rfc3339_instant(text: Seq<char>) -> Option<(int, int)>;

/// Calls `DateTime::from_timestamp` and then `to_rfc3339`: the result is
/// `rfc3339_text` of the instant.
#[verifier::external_body]
fn format_rfc3339(t: &Timestamp) -> (res: String)
    requires
        is_valid_timestamp(*t),
    ensures
        res@ == rfc3339_text(t.secs as int, t.nanos as int),
{
    chrono::DateTime::from_timestamp(t.secs, t.nanos).unwrap().to_rfc3339()
}

/// Calls `DateTime::parse_from_rfc3339` and reads the instant in UTC as
/// seconds and nanoseconds: the result is `rfc3339_instant` of the text.
/// A parsed date is held in UTC, so `from_timestamp` round-trips with these
/// readings (`chrono` documents that round trip).
#[verifier::external_body]
fn parse_rfc3339(text: &str) -> (res: Option<Timestamp>)
    ensures
        res is None <==> rfc3339_instant(text@) is None,
        res matches Some(t) ==> rfc3339_instant(text@) == Some((t.secs as int, t.nanos as int))
            && is_valid_timestamp(t),
{
    chrono::DateTime::parse_from_rfc3339(text)
        .ok()
        .map(|d| d.with_timezone(&chrono::Utc))
        .map(|d| Timestamp { secs: d.timestamp(), nanos: d.timestamp_subsec_nanos() })
}

/// Writes an instant as RFC 3339 text, as the history stores it; `None`
/// when `chrono` cannot hold the instant.
pub fn timestamp_to_text(t: &Timestamp) -> (res: Option<String>)
    ensures
        res is Some <==> is_valid_timestamp(*t),
        res matches Some(s) ==> s@ == rfc3339_text(t.secs as int, t.nanos as int),
{
    if chrono_accepts(t.secs, t.nanos) {
        Some(format_rfc3339(t))
    } else {
        None
    }
}

/// Reads an instant from RFC 3339 text; `None` when the text is not one.
pub fn timestamp_from_text(text: &str) -> (res: Option<Timestamp>)
    ensures
        res is None <==> rfc3339_instant(text@) is None,
        res matches Some(t) ==> rfc3339_instant(text@) == Some((t.secs as int, t.nanos as int))
            && is_valid_timestamp(t),
{
    parse_rfc3339(text)
}

/// Calls `DateTime::from_timestamp` and then `format` with one of "%Y",
/// "%m", "%d", rendered to a string: the result is `chrono_format` of the
/// instant and the format. The `chrono` documentation also promises the
/// shape of each: the year padded to at least four characters, the month
/// "01" to "12", the day "01" to "31".
#[verifier::external_body]
fn format_timestamp(t: &Timestamp, fmt: &str) -> (res: String)
    requires
        chrono_represents(t.secs as int, t.nanos as int),
        fmt@ == "%Y"@ || fmt@ == "%m"@ || fmt@ == "%d"@,
    ensures
        res@ == chrono_format(t.secs as int, t.nanos as int, fmt@),
        fmt@ == "%Y"@ ==> is_year_text(res@),
        fmt@ == "%m"@ ==> is_month_text(res@),
        fmt@ == "%d"@ ==> is_day_text(res@),
{
    chrono::DateTime::from_timestamp(t.secs, t.nanos).unwrap().format(fmt).to_string()
}

/// The year of an instant as "%Y" writes it.
pub open spec fn year_text(t: Timestamp) -> Seq<char> {
    chrono_format(t.secs as int, t.nanos as int, "%Y"@)
}

/// The month of an instant as "%m" writes it.
pub open spec fn month_text(t: Timestamp) -> Seq<char> {
    chrono_format(t.secs as int, t.nanos as int, "%m"@)
}

/// The day of an instant as "%d" writes it.
pub open spec fn day_text(t: Timestamp) -> Seq<char> {
    chrono_format(t.secs as int, t.nanos as int, "%d"@)
}

/// Whether an instant can be written as a date.
pub open spec fn is_valid_timestamp(t: Timestamp) -> bool {
    chrono_represents(t.secs as int, t.nanos as int)
}

/// The year, month and day of an instant, each as `chrono` writes it.
pub fn date_parts(t: &Timestamp) -> (res: (String, String, String))
    requires
        is_valid_timestamp(*t),
    ensures
        res.0@ == year_text(*t),
        res.1@ == month_text(*t),
        res.2@ == day_text(*t),
        is_year_text(res.0@),
        is_month_text(res.1@),
        is_day_text(res.2@),
{
    let y = format_timestamp(t, "%Y");
    let m = format_timestamp(t, "%m");
    let d = format_timestamp(t, "%d");
    (y, m, d)
}

} // verus!
