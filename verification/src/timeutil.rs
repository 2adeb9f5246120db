//! Trusted edges for time and randomness: calendar formatting, the fixed
//! region's DST-aware wall-clock conversion, and token generation.

use chrono::TimeZone;

use vstd::prelude::*;

verus! {

/// The `YYYY-MM-DD HH:MM` rendering of a UTC timestamp, as the calendar
/// library computes it (the empty string for timestamps outside its range).
pub uninterp spec fn utc_minutes_rep(ts: i64) -> Seq<char>;

/// Relies on chrono's `DateTime::format` with `%Y-%m-%d %H:%M`: the rendering
/// depends on the timestamp alone.
#[verifier::external_body]
pub fn format_utc_minutes(ts: i64) -> (r: String)
    ensures
        r@ == utc_minutes_rep(ts),
{
    match chrono::DateTime::<chrono::Utc>::from_timestamp(ts, 0) {
        Some(dt) => dt.format("%Y-%m-%d %H:%M").to_string(),
        None => String::new(),
    }
}

/// The UTC timestamp the region's wall clock denotes at the given civil
/// reading: present exactly when the reading exists and is unambiguous
/// across DST transitions, as the timezone database defines it.
pub uninterp spec fn zurich_utc_of(y: int, mo: int, d: int, h: int, mi: int) -> Option<int>;

/// Relies on chrono-tz's `Europe::Zurich` timezone data and chrono's
/// `from_local_datetime`: ambiguous or non-existent readings give `None`.
#[verifier::external_body]
pub fn zurich_local_to_utc(year: i32, month: u32, day: u32, hour: u32, minute: u32) -> (r: Option<
    i64,
>)
    ensures
        r is Some <==> zurich_utc_of(
            year as int,
            month as int,
            day as int,
            hour as int,
            minute as int,
        ) is Some,
        r is Some ==> r->0 == zurich_utc_of(
            year as int,
            month as int,
            day as int,
            hour as int,
            minute as int,
        )->0,
{
    let date = match chrono::NaiveDate::from_ymd_opt(year, month, day) {
        Some(date) => date,
        None => return None,
    };
    let naive = match date.and_hms_opt(hour, minute, 0) {
        Some(naive) => naive,
        None => return None,
    };
    match chrono_tz::Europe::Zurich.from_local_datetime(&naive) {
        chrono::LocalResult::Single(dt) => Some(dt.timestamp()),
        _ => None,
    }
}

/// Relies on rand's thread-local generator; nothing is promised of the
/// value, and callers must hold for every outcome.
#[verifier::external_body]
pub fn random_u64() -> u64 {
    rand::random::<u64>()
}

} // verus!
