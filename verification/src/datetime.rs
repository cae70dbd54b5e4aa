//! Dates and times: which are valid, and reading and writing them through `chrono`.
use vstd::prelude::*;
use chrono::{Datelike, Timelike};
use crate::num::{decimal, zero_pad};
use crate::object::DateTime;

verus! {

/// A leap year of the proleptic Gregorian calendar.
pub open spec fn is_leap_year(y: int) -> bool {
    y % 4 == 0 && (y % 100 != 0 || y % 400 == 0)
}

/// The number of days of `month` in year `y`.
pub open spec fn days_in_month(y: int, month: int) -> int {
    if month == 2 {
        if is_leap_year(y) { 29 } else { 28 }
    } else if month == 4 || month == 6 || month == 9 || month == 11 {
        30
    } else {
        31
    }
}

/// A date and time that `chrono` can represent (`NaiveDate::from_ymd_opt` and
/// `and_hms_opt` accept it).
pub open spec fn valid_datetime(t: DateTime) -> bool {
    &&& -262143 <= t.year <= 262142
    &&& 1 <= t.month <= 12
    &&& 1 <= t.day <= days_in_month(t.year as int, t.month as int)
    &&& t.hour < 24
    &&& t.minute < 60
    &&& t.second < 60
}

/// The formats this library writes dates in.
pub open spec fn known_format(fmt: Seq<char>) -> bool {
    ||| fmt == "%Y%m%dT%H%M"@
    ||| fmt == "%Y-%m-%dT%H:%M:%S"@
    ||| fmt == "icom24_%Y-%m-%d_"@
    ||| fmt == "%Y-%m-%d"@
}

/// What `chrono::NaiveDateTime::parse_from_str(s, fmt)` gives, as plain parts.
pub uninterp spec fn chrono_datetime_parse(s: Seq<char>, fmt: Seq<char>) -> Option<DateTime>;

/// What `chrono::NaiveDate::parse_from_str(s, fmt)` gives: year, month, day.
pub uninterp spec fn chrono_date_parse(s: Seq<char>, fmt: Seq<char>) -> Option<(i32, u32, u32)>;

/// A year as `%Y` writes it: four digits, zero-padded, for the years 0 to 9999;
/// otherwise a sign, then at least four digits.
pub open spec fn year_text(y: int) -> Seq<char> {
    if 0 <= y <= 9999 {
        zero_pad(decimal(y as nat), 4)
    } else if y > 9999 {
        seq!['+'] + decimal(y as nat)
    } else {
        seq!['-'] + zero_pad(decimal((-y) as nat), 4)
    }
}

/// A number under 100 as `%m`, `%d`, `%H`, `%M` and `%S` write it: two digits.
pub open spec fn two_digits(n: nat) -> Seq<char> {
    zero_pad(decimal(n), 2)
}

/// The date part, `%Y-%m-%d`.
pub open spec fn date_text(t: DateTime) -> Seq<char> {
    year_text(t.year as int) + seq!['-'] + two_digits(t.month as nat) + seq!['-'] + two_digits(t.day as nat)
}

/// What `chrono`'s `format(fmt).to_string()` writes for a valid date and time in
/// one of the formats this library writes (`known_format`).
pub open spec fn datetime_text(t: DateTime, fmt: Seq<char>) -> Seq<char> {
    if fmt == "%Y%m%dT%H%M"@ {
        year_text(t.year as int) + two_digits(t.month as nat) + two_digits(t.day as nat) + seq!['T']
            + two_digits(t.hour as nat) + two_digits(t.minute as nat)
    } else if fmt == "%Y-%m-%dT%H:%M:%S"@ {
        date_text(t) + seq!['T'] + two_digits(t.hour as nat) + seq![':'] + two_digits(t.minute as nat)
            + seq![':'] + two_digits(t.second as nat)
    } else if fmt == "icom24_%Y-%m-%d_"@ {
        "icom24_"@ + date_text(t) + seq!['_']
    } else {
        date_text(t)
    }
}

/// Reads a date and time from `s` in the `strftime`-like format `fmt`
/// (`chrono::NaiveDateTime::parse_from_str`).  The result is named; what the
/// contract adds is that a parsed value is a valid date and time, as every
/// `NaiveDateTime` is.
#[verifier::external_body]
pub(crate) fn parse_datetime(s: &str, fmt: &str) -> (r: Option<DateTime>)
    ensures
        r == chrono_datetime_parse(s@, fmt@),
        r matches Some(t) ==> valid_datetime(t),
{
    chrono::NaiveDateTime::parse_from_str(s, fmt).ok().map(|x| DateTime {
        year: x.year(),
        month: x.month(),
        day: x.day(),
        hour: x.hour(),
        minute: x.minute(),
        second: x.second(),
    })
}

/// Reads a date from `s` in the format `fmt` (`chrono::NaiveDate::parse_from_str`);
/// the time of the result is midnight, as `NaiveDateTime::from(NaiveDate)` makes it.
#[verifier::external_body]
pub(crate) fn parse_date(s: &str, fmt: &str) -> (r: Option<DateTime>)
    ensures
        match chrono_date_parse(s@, fmt@) {
            Some((y, m, d)) => r == Some(DateTime { year: y, month: m, day: d, hour: 0, minute: 0, second: 0 }),
            None => r is None,
        },
        r matches Some(t) ==> valid_datetime(t),
{
    chrono::NaiveDate::parse_from_str(s, fmt).ok().map(|x| DateTime {
        year: x.year(),
        month: x.month(),
        day: x.day(),
        hour: 0,
        minute: 0,
        second: 0,
    })
}

/// Writes a valid date and time in the format `fmt`
/// (`NaiveDate::from_ymd_opt(..)?.and_hms_opt(..)?.format(fmt).to_string()`); `None`
/// where `chrono` holds the parts to be no date (an invalid day, an hour of 24).
/// For the formats this library writes, the text is stated (`datetime_text`), as
/// `chrono`'s writer of numeric fields makes it.
#[verifier::external_body]
pub(crate) fn format_datetime(t: DateTime, fmt: &str) -> (r: Option<String>)
    requires
        known_format(fmt@),
    ensures
        r is Some <==> valid_datetime(t),
        r matches Some(s) ==> s@ == datetime_text(t, fmt@),
{
    chrono::NaiveDate::from_ymd_opt(t.year, t.month, t.day)
        .and_then(|d| d.and_hms_opt(t.hour, t.minute, t.second))
        .map(|x| x.format(fmt).to_string())
}

} // verus!
