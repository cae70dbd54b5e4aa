//! Points in time as the transaction records write them (RFC 3339), and the current
//! time.
use vstd::prelude::*;
use crate::ledger::Timestamp;

verus! {

/// What `chrono::DateTime::parse_from_rfc3339(s)`, taken to UTC, gives: seconds and
/// nanoseconds since 1970.
pub uninterp spec fn chrono_rfc3339_parse(s: Seq<char>) -> Option<(i64, u32)>;

/// What `to_rfc3339_opts(SecondsFormat::AutoSi, true)` writes for the UTC time with
/// these seconds and nanoseconds since 1970.
pub uninterp spec fn chrono_rfc3339_text(secs: i64, nanos: u32) -> Seq<char>;

/// Whether `chrono` holds these seconds and nanoseconds since 1970 to be a time in UTC:
/// the day lies within the dates it can hold, from -262143-01-01 to +262142-12-31, and the
/// nanoseconds stay under one second, or under two in the last second of a minute (a
/// leap second).
pub open spec fn utc_time_exists(secs: i64, nanos: u32) -> bool {
    &&& -8_334_601_228_800 <= secs <= 8_210_266_876_799
    &&& nanos < 2_000_000_000
    &&& (nanos >= 1_000_000_000 ==> (secs as int % 86_400) % 60 == 59)
}

/// Reads an RFC 3339 time (`chrono::DateTime::<FixedOffset>::parse_from_rfc3339`,
/// then `with_timezone(&Utc)`). The result is named, not stated.
#[verifier::external_body]
fn parse_rfc3339(s: &str) -> (r: Option<(i64, u32)>)
    ensures
        r == chrono_rfc3339_parse(s@),
{
    chrono::DateTime::<chrono::FixedOffset>::parse_from_rfc3339(s)
        .ok()
        .map(|x| x.with_timezone(&chrono::Utc))
        .map(|x| (x.timestamp(), x.timestamp_subsec_nanos()))
}

/// Writes a time as RFC 3339 in UTC with as many fractional digits as it needs
/// (`DateTime::from_timestamp(secs, nanos)`, then
/// `to_rfc3339_opts(SecondsFormat::AutoSi, true)`); `None` where `chrono` holds the
/// parts to be no time (`from_timestamp` gives `None` outside the dates that `NaiveDate`
/// holds, and for nanoseconds that `NaiveTime::from_num_seconds_from_midnight_opt`
/// refuses; the writing itself never fails). What is written is named, not stated.
#[verifier::external_body]
fn format_rfc3339(secs: i64, nanos: u32) -> (r: Option<String>)
    ensures
        r is Some <==> utc_time_exists(secs, nanos),
        r matches Some(s) ==> s@ == chrono_rfc3339_text(secs, nanos),
{
    chrono::DateTime::from_timestamp(secs, nanos).map(|x| x.to_rfc3339_opts(chrono::SecondsFormat::AutoSi, true))
}

/// The system time as whole seconds and nanoseconds since 1970
/// (`std::time::SystemTime::now().duration_since(UNIX_EPOCH)`, then `as_secs` and
/// `subsec_nanos`); `None` where the clock reads earlier than 1970. Which time it
/// reads is not stated: it depends on the clock. What holds of every outcome is that
/// the nanoseconds of a `Duration` stay under one second.
#[verifier::external_body]
fn system_time_since_epoch() -> (r: Option<(u64, u32)>)
    ensures
        r matches Some((s, n)) ==> n < 1_000_000_000,
{
    std::time::SystemTime::now().duration_since(std::time::UNIX_EPOCH).ok().map(|d| (d.as_secs(), d.subsec_nanos()))
}

/// The UTC time these seconds and nanoseconds since 1970 name
/// (`chrono::DateTime::from_timestamp`), read back with `timestamp` and
/// `timestamp_subsec_nanos`: `None` exactly where `chrono` holds them to be no time,
/// and otherwise the same parts, as `chrono` documents the round trip.
#[verifier::external_body]
fn utc_from_timestamp(secs: i64, nanos: u32) -> (r: Option<Timestamp>)
    ensures
        r is Some <==> utc_time_exists(secs, nanos),
        r matches Some(t) ==> t.secs == secs && t.nanos == nanos,
{
    chrono::DateTime::from_timestamp(secs, nanos).map(|t| Timestamp { secs: t.timestamp(), nanos: t.timestamp_subsec_nanos() })
}

/// The time that a reading of the system clock gives, `secs` seconds and `nanos`
/// nanoseconds after 1970, as `chrono` takes it in UTC: `None` where the seconds
/// do not fit an `i64` or the parts are no time that `chrono` holds.
pub fn timestamp_since_epoch(secs: u64, nanos: u32) -> (r: Option<Timestamp>)
    ensures
        r is Some <==> (secs <= i64::MAX && utc_time_exists(secs as i64, nanos)),
        r matches Some(t) ==> t.secs == secs && t.nanos == nanos,
{
    if secs <= 9_223_372_036_854_775_807u64 {
        utc_from_timestamp(secs as i64, nanos)
    } else {
        None
    }
}

/// The system clock gave no time that `chrono` holds.
#[derive(Clone, Copy, Debug, PartialEq, Eq)]
pub struct ClockError;

/// The current time, as `chrono::Utc::now()` reads it; `None` where the system
/// clock gives no time that `chrono` holds (it reads earlier than 1970). A time that
/// comes back has a text (`timestamp_text`) and is no leap second.
pub fn now() -> (r: Option<Timestamp>)
    ensures
        r matches Some(t) ==> t.nanos < 1_000_000_000 && utc_time_exists(t.secs, t.nanos),
{
    match system_time_since_epoch() {
        Some((secs, nanos)) => timestamp_since_epoch(secs, nanos),
        None => None,
    }
}

/// The time a transaction record gives as text.
pub fn timestamp_from_text(s: &str) -> (r: Option<Timestamp>)
    ensures
        r matches Some(t) ==> chrono_rfc3339_parse(s@) == Some((t.secs, t.nanos)),
        r is None ==> chrono_rfc3339_parse(s@) is None,
{
    match parse_rfc3339(s) {
        Some((secs, nanos)) => Some(Timestamp { secs, nanos }),
        None => None,
    }
}

/// The text a transaction record gives a time as; `None` for a time that `chrono`
/// cannot hold.
pub fn timestamp_text(t: Timestamp) -> (r: Option<String>)
    ensures
        r is Some <==> utc_time_exists(t.secs, t.nanos),
        r matches Some(s) ==> s@ == chrono_rfc3339_text(t.secs, t.nanos),
{
    format_rfc3339(t.secs, t.nanos)
}

/// Reads the `date` of a transaction record: an RFC 3339 time, taken to UTC.
#[derive(Clone, Copy, Debug)]
pub struct Visitor;

impl Visitor {
    /// The time `v` gives, or `None` for a text that is no valid ISO 8601 time.
    pub fn visit_str(&self, v: &str) -> (r: Option<Timestamp>)
        ensures
            r matches Some(t) ==> chrono_rfc3339_parse(v@) == Some((t.secs, t.nanos)),
            r is None ==> chrono_rfc3339_parse(v@) is None,
    {
        timestamp_from_text(v)
    }
}

/// A resource the pages need (a template, a script), read once.
pub struct FileRes<T> {
    pub value: Option<T>,
}

impl<T> FileRes<T> {
    /// The resource, read.
    pub fn new(value: T) -> (r: FileRes<T>)
        ensures
            r.value == Some(value),
    {
        FileRes { value: Some(value) }
    }

    /// A resource not read yet.
    pub fn empty() -> (r: FileRes<T>)
        ensures
            r.value is None,
    {
        FileRes { value: None }
    }

    /// The resource; it must have been read.
    pub fn get(&self) -> (r: &T)
        requires
            self.value is Some,
        ensures
            *r == self.value->0,
    {
        self.value.as_ref().unwrap()
    }
}

} // verus!
