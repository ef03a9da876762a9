//! Publication times: the instant a timestamp names, and its rendering in the
//! machine's time zone to the minute.
use vstd::prelude::*;

use crate::text::{decimal, digit_char};

verus! {

/// The `chrono` format of a publication time in the article list: day, month,
/// year, hour and minute.
pub open spec fn published_at_format() -> Seq<char> {
    "%d.%m.%Y %H:%M"@
}

/// Leap years of the proleptic Gregorian calendar.
pub open spec fn is_leap_year(y: int) -> bool {
    y % 4 == 0 && (y % 100 != 0 || y % 400 == 0)
}

pub open spec fn days_in_month(y: int, m: int) -> int {
    if m == 2 {
        if is_leap_year(y) {
            29
        } else {
            28
        }
    } else if m == 4 || m == 6 || m == 9 || m == 11 {
        30
    } else {
        31
    }
}

/// A date of the proleptic Gregorian calendar: year, month and day.
pub open spec fn valid_date(y: int, m: int, d: int) -> bool {
    1 <= m <= 12 && 1 <= d <= days_in_month(y, m)
}

/// The number of days from 1970-01-01 to the date `y`-`m`-`d` (negative
/// before it).
pub open spec fn days_from_civil(y: int, m: int, d: int) -> int {
    let yy = if m <= 2 {
        y - 1
    } else {
        y
    };
    let era = yy / 400;
    let yoe = yy - era * 400;
    let mp = if m > 2 {
        m - 3
    } else {
        m + 9
    };
    let doy = (153 * mp + 2) / 5 + d - 1;
    let doe = yoe * 365 + yoe / 4 - yoe / 100 + doy;
    era * 146097 + doe - 719468
}

/// The date that lies `days` days after 1970-01-01.
pub open spec fn civil_date(days: int) -> (int, int, int) {
    choose|ymd: (int, int, int)|
        valid_date(ymd.0, ymd.1, ymd.2) && days_from_civil(ymd.0, ymd.1, ymd.2) == days
}

/// Two decimal digits, with a leading zero below ten.
pub open spec fn two_digits(n: int) -> Seq<char> {
    seq![digit_char((n / 10) as nat), digit_char((n % 10) as nat)]
}

/// `s` with leading zeros up to four characters.
pub open spec fn zero_pad4(s: Seq<char>) -> Seq<char> {
    if s.len() >= 4 {
        s
    } else {
        Seq::new((4 - s.len()) as nat, |i: int| '0') + s
    }
}

/// `chrono`'s `%Y`: four digits for years 0 to 9999, otherwise a sign and at
/// least four digits.
pub open spec fn year_text(y: int) -> Seq<char> {
    if 0 <= y <= 9999 {
        zero_pad4(decimal(y as nat))
    } else if y < 0 {
        seq!['-'] + zero_pad4(decimal((-y) as nat))
    } else {
        seq!['+'] + zero_pad4(decimal(y as nat))
    }
}

/// The wall-clock time `t` seconds after 1970-01-01 00:00 as
/// `DD.MM.YYYY HH:MM`.
pub open spec fn minute_text(t: int) -> Seq<char> {
    let date = civil_date(t / 86400);
    let sod = t % 86400;
    two_digits(date.2) + seq!['.'] + two_digits(date.1) + seq!['.'] + year_text(date.0) + seq![' ']
        + two_digits(sod / 3600) + seq![':'] + two_digits((sod % 3600) / 60)
}

/// `s` renders the instant `t` (seconds since 1970-01-01 00:00 UTC) to the
/// minute, in a time zone whose offset from UTC is less than a day.
pub open spec fn renders_local_minute(s: Seq<char>, t: int) -> bool {
    exists|offset: int| -86400 < offset < 86400 && s == #[trigger] minute_text(t + offset)
}

/// Instants whose UTC date `chrono` represents: from -262143-01-01 to
/// 262142-12-31.
pub open spec fn timestamp_in_range(t: int) -> bool {
    days_from_civil(-262143, 1, 1) <= t / 86400 <= days_from_civil(262142, 12, 31)
}

/// The instant that `chrono` reads from a timestamp, in whole seconds since
/// 1970-01-01 00:00 UTC; `None` where it refuses the text.
pub uninterp spec fn parsed_instant(timestamp: Seq<char>) -> Option<i64>;

/// Reads `timestamp` as `chrono::DateTime<chrono::FixedOffset>` reads a string
/// (an RFC 3339 date and time with an offset, as `DateTime<Local>` reads it
/// before it changes zone) and gives its `timestamp()`. The grammar is not
/// stated: the result is named by `parsed_instant`. The instant lies in the
/// range of dates that `chrono` represents, as every `DateTime` does.
#[verifier::external_body]
pub(crate) fn parse_timestamp(timestamp: &str) -> (r: Option<i64>)
    ensures
        r == parsed_instant(timestamp@),
        r matches Some(t) ==> timestamp_in_range(t as int),
{
    timestamp.parse::<chrono::DateTime<chrono::FixedOffset>>().ok().map(|t| t.timestamp())
}

/// Makes `chrono::DateTime::from_timestamp(secs, 0)`, which is `None` exactly
/// outside the range of dates that `chrono` represents, moves it to the
/// machine's time zone with `with_timezone(&chrono::Local)` and renders it
/// with `format`. The machine's offset from UTC is not stated, only that it
/// is less than a day, as every `chrono` offset is.
#[verifier::external_body]
pub(crate) fn format_local_minute(secs: i64, format: &str) -> (r: Option<String>)
    requires
        format@ == published_at_format(),
    ensures
        r is Some <==> timestamp_in_range(secs as int),
        r matches Some(s) ==> renders_local_minute(s@, secs as int),
{
    chrono::DateTime::from_timestamp(secs, 0).map(|t| t.with_timezone(&chrono::Local).format(format).to_string())
}

/// The publication time that the article list shows for `timestamp`: the
/// instant it names, to the minute, in the machine's time zone; `None` where
/// the timestamp names no instant.
pub fn local_publication_time(timestamp: &str) -> (r: Option<String>)
    ensures
        r is Some <==> parsed_instant(timestamp@) is Some,
        r matches Some(s) ==> renders_local_minute(s@, parsed_instant(timestamp@)->0 as int),
{
    match parse_timestamp(timestamp) {
        Some(t) => format_local_minute(t, "%d.%m.%Y %H:%M"),
        None => None,
    }
}

} // verus!
