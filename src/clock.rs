//! The outside calls that the timeline and placement logic rests on:
//! the current time, RFC 3339 parsing, chrono's representable range and
//! random numbers.
use vstd::prelude::*;
use chrono::{Datelike, Offset, TimeZone};

verus! {

/// Instant, in milliseconds since the Unix epoch, that chrono reads from an
/// RFC 3339 date string; `None` where the text is not RFC 3339.
pub uninterp spec fn rfc3339_millis(s: Seq<char>) -> Option<i64>;

/// First millisecond chrono represents: 1 January of year -262143.
pub const CHRONO_MIN_MILLIS: i64 = -8_334_601_228_800_000;

/// Last millisecond chrono represents: the end of 31 December 262142.
pub const CHRONO_MAX_MILLIS: i64 = 8_210_266_876_799_999;

/// Whether chrono can represent the given millisecond timestamp as a date-time.
pub open spec fn chrono_millis_ok(ms: i64) -> bool {
    CHRONO_MIN_MILLIS <= ms <= CHRONO_MAX_MILLIS
}

/// Relies on chrono's `Utc::now` (and `DateTime::timestamp_millis`): the
/// current time in milliseconds since the epoch. `Utc::now` panics on a clock
/// set before the epoch, so a returned value is never negative.
#[verifier::external_body]
pub(crate) fn now_millis() -> (r: i64)
    ensures
        r >= 0,
{
    chrono::Utc::now().timestamp_millis()
}

/// Relies on chrono's `DateTime::parse_from_rfc3339`, read back as
/// milliseconds since the epoch.
#[verifier::external_body]
pub(crate) fn parse_rfc3339_millis(s: &str) -> (r: Option<i64>)
    ensures
        r == rfc3339_millis(s@),
{
    chrono::DateTime::parse_from_rfc3339(s).ok().map(|d| d.timestamp_millis())
}

/// Relies on chrono's `DateTime::from_timestamp_millis`, which returns `None`
/// exactly for a timestamp outside chrono's date range (years -262143 to
/// 262142).
#[verifier::external_body]
pub(crate) fn millis_representable(ms: i64) -> (r: bool)
    ensures
        r == chrono_millis_ok(ms),
{
    chrono::DateTime::from_timestamp_millis(ms).is_some()
}

/// Day number (days from the common era) on which instant `ms` falls in the
/// zone named `tz` (UTC where the name is unknown); `None` where chrono cannot
/// represent the instant or its local date.
pub uninterp spec fn local_day_of(ms: i64, tz: Seq<char>) -> Option<i32>;

/// Relies on chrono-tz's zone table (`str::parse::<Tz>`, with UTC for an
/// unknown name, and `offset_from_utc_datetime`) and chrono's calendar
/// (`from_timestamp_millis`, `checked_add_offset`, `num_days_from_ce`); the
/// offset is added with a check, so a local date past chrono's range gives
/// `None` rather than a panic.
#[verifier::external_body]
pub(crate) fn local_day_number(ms: i64, tz: &str) -> (r: Option<i32>)
    ensures
        r == local_day_of(ms, tz@),
{
    let zone: chrono_tz::Tz = tz.parse().unwrap_or(chrono_tz::UTC);
    let utc = chrono::DateTime::from_timestamp_millis(ms)?.naive_utc();
    let offset = zone.offset_from_utc_datetime(&utc).fix();
    utc.checked_add_offset(offset).map(|local| local.date().num_days_from_ce())
}

/// rand's thread-local generator: nothing is promised of the value drawn.
pub assume_specification<T>[ rand::random::<T> ]() -> (r: T)
    where
        rand::distributions::Standard: rand::distributions::Distribution<T>,
;

/// A uniformly drawn number below `n`.
pub(crate) fn random_below(n: u64) -> (r: u64)
    requires
        n > 0,
    ensures
        r < n,
{
    let x: u64 = rand::random::<u64>();
    x % n
}

/// A fair coin.
pub(crate) fn random_bool() -> bool {
    rand::random::<bool>()
}

} // verus!
