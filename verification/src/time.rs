//! Instants, the seconds between them, and calendar days.
use vstd::prelude::*;

verus! {

/// The first second of the calendar.
pub const FIRST_SECOND: i64 = -8_334_601_228_800;

/// The last second of the calendar.
pub const LAST_SECOND: i64 = 8_210_266_876_799;

/// An instant: the seconds since 1970-01-01T00:00:00Z, leap seconds not counted, and the
/// nanoseconds since that second began. Within a leap second the nanoseconds go on past a second.
#[derive(Debug, Clone, Copy, PartialEq, Eq, Structural)]
pub struct Timestamp {
    pub secs: i64,
    pub nanos: u32,
}

/// Whether the calendar has that instant.
pub open spec fn in_calendar(secs: i64, nanos: u32) -> bool {
    &&& FIRST_SECOND <= secs <= LAST_SECOND
    &&& nanos < 1_000_000_000 || (nanos < 2_000_000_000 && secs % 60 == 59)
}

/// What `DateTime::parse_from_rfc3339` makes of a text: the seconds and nanoseconds of the instant,
/// or nothing where it reports an error.
pub uninterp spec fn rfc3339_instant(text: Seq<char>) -> Option<(i64, u32)>;

/// What `DateTime::to_rfc3339` writes for an instant in UTC.
pub uninterp spec fn rfc3339_text(secs: i64, nanos: u32) -> Seq<char>;

/// `chrono::DateTime::parse_from_rfc3339`. Its result, with the error left out, is a function of
/// the text alone, and an instant of the calendar.
#[verifier::external_body]
fn parse_rfc3339(text: &str) -> (instant: Option<(i64, u32)>)
    ensures
        instant == rfc3339_instant(text@),
        instant matches Some((secs, nanos)) ==> in_calendar(secs, nanos),
{
    chrono::DateTime::parse_from_rfc3339(text)
        .ok()
        .map(|instant| (instant.timestamp(), instant.timestamp_subsec_nanos()))
}

/// Whether the second lies in one of the years 0 to 9999, which RFC 3339 can write.
pub open spec fn has_four_digit_year(secs: i64) -> bool {
    -62_167_219_200 <= secs <= 253_402_300_799
}

/// `chrono::DateTime::to_rfc3339` of an instant in UTC, a function of the instant alone. In the
/// years that RFC 3339 can write, `chrono::DateTime::parse_from_rfc3339` reads the text as that
/// instant.
#[verifier::external_body]
fn format_rfc3339(secs: i64, nanos: u32) -> (text: String)
    requires
        in_calendar(secs, nanos),
    ensures
        text@ == rfc3339_text(secs, nanos),
        has_four_digit_year(secs) ==> rfc3339_instant(text@) == Some((secs, nanos)),
{
    chrono::DateTime::from_timestamp(secs, nanos).unwrap_or_default().to_rfc3339()
}

/// `chrono::DateTime::from_timestamp` succeeds on the instants of the calendar.
#[verifier::external_body]
fn calendar_has(secs: i64, nanos: u32) -> (has: bool)
    ensures
        has == in_calendar(secs, nanos),
{
    chrono::DateTime::from_timestamp(secs, nanos).is_some()
}

/// The second of the day, in UTC.
pub open spec fn second_of_day(secs: int) -> int {
    secs % 86_400
}

/// The nanoseconds from `earlier` to `later`. A leap second between two times of day counts only
/// where the instant that lies in it says so.
pub open spec fn elapsed_nanos(later: Timestamp, earlier: Timestamp) -> int {
    let leap: int = if second_of_day(later.secs as int) > second_of_day(earlier.secs as int)
        && earlier.nanos >= 1_000_000_000 {
        1
    } else if second_of_day(later.secs as int) < second_of_day(earlier.secs as int) && later.nanos
        >= 1_000_000_000 {
        -1
    } else {
        0
    };
    (later.secs - earlier.secs + leap) * 1_000_000_000 + later.nanos - earlier.nanos
}

/// The whole seconds in a number of nanoseconds, rounded towards zero.
pub open spec fn whole_seconds(nanos: int) -> int {
    if nanos >= 0 {
        nanos / 1_000_000_000
    } else {
        -(-nanos / 1_000_000_000)
    }
}

/// The whole seconds from `earlier` to `later`, rounded towards zero.
pub open spec fn seconds_between(later: Timestamp, earlier: Timestamp) -> int {
    whole_seconds(elapsed_nanos(later, earlier))
}

/// An instant as text (RFC 3339) is read, or is not there.
pub open spec fn instant_of(text: Seq<char>) -> Option<Timestamp> {
    match rfc3339_instant(text) {
        Some((secs, nanos)) => Some(Timestamp { secs, nanos }),
        None => None,
    }
}

/// An instant with what lies below its millisecond cut off.
pub open spec fn to_millis(instant: Timestamp) -> Timestamp {
    Timestamp {
        secs: instant.secs,
        nanos: (instant.nanos - instant.nanos % 1_000_000) as u32,
    }
}

/// The instant that a log line states, to the millisecond.
pub open spec fn log_instant(text: Seq<char>) -> Option<Timestamp> {
    match instant_of(text) {
        Some(instant) => Some(to_millis(instant)),
        None => None,
    }
}

impl Timestamp {
    /// Whether the calendar has this instant.
    pub open spec fn valid(self) -> bool {
        in_calendar(self.secs, self.nanos)
    }

    /// The instant, where the calendar has it.
    pub fn new(secs: i64, nanos: u32) -> (instant: Option<Timestamp>)
        ensures
            instant == (if in_calendar(secs, nanos) {
                Some(Timestamp { secs, nanos })
            } else {
                None
            }),
    {
        if calendar_has(secs, nanos) {
            Some(Timestamp { secs, nanos })
        } else {
            None
        }
    }

    /// The instant that an RFC 3339 text states.
    pub fn from_rfc3339(text: &str) -> (instant: Option<Timestamp>)
        ensures
            instant == instant_of(text@),
            instant matches Some(inner) ==> inner.valid(),
    {
        match parse_rfc3339(text) {
            Some((secs, nanos)) => Some(Timestamp { secs, nanos }),
            None => None,
        }
    }

    /// The instant as RFC 3339 text in UTC.
    pub fn to_rfc3339(self) -> (text: String)
        requires
            self.valid(),
        ensures
            text@ == rfc3339_text(self.secs, self.nanos),
            has_four_digit_year(self.secs) ==> instant_of(text@) == Some(self),
    {
        format_rfc3339(self.secs, self.nanos)
    }

    /// The instant with what lies below its millisecond cut off.
    pub fn truncated_to_millis(self) -> (instant: Timestamp)
        ensures
            instant == to_millis(self),
            self.valid() ==> instant.valid(),
    {
        Timestamp { secs: self.secs, nanos: self.nanos - self.nanos % 1_000_000 }
    }

    /// The whole seconds from `earlier` to this instant, rounded towards zero.
    pub fn seconds_since(self, earlier: Timestamp) -> (seconds: i64)
        requires
            self.valid(),
            earlier.valid(),
        ensures
            seconds == seconds_between(self, earlier),
    {
        let here: i64 = second_of_utc_day(self.secs);
        let there: i64 = second_of_utc_day(earlier.secs);
        let leap: i128 = if here > there && earlier.nanos >= 1_000_000_000 {
            1
        } else if here < there && self.nanos >= 1_000_000_000 {
            -1
        } else {
            0
        };
        let nanos: i128 = (self.secs as i128 - earlier.secs as i128 + leap) * 1_000_000_000
            + self.nanos as i128 - earlier.nanos as i128;
        if nanos >= 0 {
            (nanos / 1_000_000_000) as i64
        } else {
            let size: i128 = -nanos;
            let seconds: i64 = (size / 1_000_000_000) as i64;
            -seconds
        }
    }
}

/// The instant that a log line states, to the millisecond.
pub fn parse_log_timestamp(text: &str) -> (instant: Option<Timestamp>)
    ensures
        instant == log_instant(text@),
        instant matches Some(inner) ==> inner.valid(),
{
    match Timestamp::from_rfc3339(text) {
        Some(instant) => Some(instant.truncated_to_millis()),
        None => None,
    }
}

/// The second of the day, in UTC.
fn second_of_utc_day(secs: i64) -> (second: i64)
    ensures
        second == second_of_day(secs as int),
{
    if secs >= 0 {
        secs % 86_400
    } else {
        let below: i64 = (-(secs + 1)) % 86_400;
        86_399 - below
    }
}

/// The UTC calendar day of an instant, counted from 1970-01-01.
pub open spec fn utc_day(instant: Timestamp) -> int {
    instant.secs as int / 86_400
}

/// The UTC calendar day of an instant, counted from 1970-01-01.
pub fn day_of_instant(instant: Timestamp) -> (day: i64)
    ensures
        day == utc_day(instant),
{
    if instant.secs >= 0 {
        instant.secs / 86_400
    } else {
        -1 - (-(instant.secs + 1)) / 86_400
    }
}

/// Whether the Gregorian calendar gives that year a leap day.
pub open spec fn is_leap_year(year: int) -> bool {
    year % 4 == 0 && (year % 100 != 0 || year % 400 == 0)
}

/// The days of a year that lie before the month, in a year without a leap day.
pub open spec fn days_before_month(month: int) -> int {
    seq![0int, 31, 59, 90, 120, 151, 181, 212, 243, 273, 304, 334][month - 1]
}

/// The Gregorian calendar day, counted from 1970-01-01.
pub open spec fn gregorian_day(year: int, month: int, day: int) -> int {
    let before_year = 365 * (year - 1) + (year - 1) / 4 - (year - 1) / 100 + (year - 1) / 400;
    let leap_day: int = if month > 2 && is_leap_year(year) {
        1
    } else {
        0
    };
    before_year + days_before_month(month) + leap_day + day - 719_163
}

/// The Gregorian calendar day, counted from 1970-01-01.
pub fn day_of_date(year: u32, month: u32, day: u32) -> (out: i64)
    requires
        1 <= year <= 9_999,
        1 <= month <= 12,
        1 <= day <= 31,
    ensures
        out == gregorian_day(year as int, month as int, day as int),
{
    let past: i64 = year as i64 - 1;
    let before_year: i64 = 365 * past + past / 4 - past / 100 + past / 400;
    let before_month: i64 = match month {
        1 => 0,
        2 => 31,
        3 => 59,
        4 => 90,
        5 => 120,
        6 => 151,
        7 => 181,
        8 => 212,
        9 => 243,
        10 => 273,
        11 => 304,
        _ => 334,
    };
    let leap_day: i64 = if month > 2 && year % 4 == 0 && (year % 100 != 0 || year % 400 == 0) {
        1
    } else {
        0
    };
    before_year + before_month + leap_day + day as i64 - 719_163
}

} // verus!
