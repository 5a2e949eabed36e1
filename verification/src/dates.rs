//! Page dates.
//!
//! A page's date comes from its front matter when present, parsed by falling
//! through three formats: RFC 3339, a local date-time, and a bare date; when
//! all three fail, or no date is declared, the caller's clock value stands
//! in.  Dates are carried as seconds since the Unix epoch and only ever
//! compared, so their zone handling stays inside the parser.

use vstd::prelude::*;

verus! {

/// The instant an RFC 3339 string denotes, in seconds since the Unix epoch,
/// or `None` where the string is not RFC 3339.
pub uninterp spec fn rfc3339_timestamp_of(s: Seq<char>) -> Option<i64>;

/// Relies on `chrono::DateTime::parse_from_rfc3339`: the string carries its
/// own offset, so the result depends on the characters alone.
#[verifier::external_body]
pub fn parse_rfc3339(s: &str) -> (r: Option<i64>)
    ensures
        r == rfc3339_timestamp_of(s@),
{
    match chrono::DateTime::parse_from_rfc3339(s) {
        Ok(d) => Some(d.timestamp()),
        Err(_) => None,
    }
}

/// Relies on `chrono::NaiveDateTime::parse_from_str` with the format
/// `%Y-%m-%dT%H:%M:%S`, read in the machine's local time zone; the zone makes
/// the result machine-dependent, so nothing is stated of it.
#[verifier::external_body]
pub fn parse_local_datetime(s: &str) -> Option<i64> {
    match chrono::NaiveDateTime::parse_from_str(s, "%Y-%m-%dT%H:%M:%S") {
        Ok(d) => chrono::TimeZone::from_local_datetime(&chrono::Local, &d).single().map(
            |x: chrono::DateTime<chrono::Local>| x.timestamp(),
        ),
        Err(_) => None,
    }
}

/// Relies on `chrono::NaiveDate::parse_from_str` with the format `%Y-%m-%d`,
/// read at midnight in the machine's local time zone; the zone makes the
/// result machine-dependent, so nothing is stated of it.
#[verifier::external_body]
pub fn parse_local_date(s: &str) -> Option<i64> {
    match chrono::NaiveDate::parse_from_str(s, "%Y-%m-%d") {
        Ok(d) => match d.and_hms_opt(0, 0, 0) {
            Some(dt) => chrono::TimeZone::from_local_datetime(&chrono::Local, &dt).single().map(
                |x: chrono::DateTime<chrono::Local>| x.timestamp(),
            ),
            None => None,
        },
        Err(_) => None,
    }
}

/// The first parse that succeeded, or the clock value when none did.
pub open spec fn spec_pick_timestamp(
    first: Option<i64>,
    second: Option<i64>,
    third: Option<i64>,
    now: i64,
) -> i64 {
    if first is Some {
        first->0
    } else if second is Some {
        second->0
    } else if third is Some {
        third->0
    } else {
        now
    }
}

/// Picks the first successful parse, falling back to the clock value.
pub fn pick_timestamp(first: Option<i64>, second: Option<i64>, third: Option<i64>, now: i64) -> (r:
    i64)
    ensures
        r == spec_pick_timestamp(first, second, third, now),
{
    match first {
        Some(t) => t,
        None => match second {
            Some(t) => t,
            None => match third {
                Some(t) => t,
                None => now,
            },
        },
    }
}

/// A declared date string resolved to a timestamp: the three formats are
/// tried in order, and the clock value stands in when all fail.  Where the
/// string is RFC 3339, the result is its instant.
pub fn resolve_date_string(s: &str, now: i64) -> (r: i64)
    ensures
        rfc3339_timestamp_of(s@) is Some ==> r == rfc3339_timestamp_of(s@)->0,
{
    let first = parse_rfc3339(s);
    let second = parse_local_datetime(s);
    let third = parse_local_date(s);
    pick_timestamp(first, second, third, now)
}

} // verus!
