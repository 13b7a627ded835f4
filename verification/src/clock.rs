//! The calendar and time-zone database that `chrono` and `chrono-tz` provide.
use vstd::prelude::*;

use chrono::{Datelike, TimeZone, Timelike, Utc};
use chrono_tz::Tz;

verus! {

/// Whether `chrono-tz` knows `name` as an IANA time-zone name.
pub uninterp spec fn is_iana_timezone(name: Seq<char>) -> bool;

/// The wall clock in time zone `timezone` at `at_unix_ms` milliseconds after
/// the Unix epoch: (days since Monday, hour, minute).
pub uninterp spec fn wall_clock(timezone: Seq<char>, at_unix_ms: int) -> Option<(u32, u32, u32)>;

/// The earliest instant, in milliseconds after the Unix epoch, that
/// chrono's UTC date-time holds: January 1, 262144 BCE, 00:00.
pub const MIN_UNIX_MS: i64 = -8_334_601_228_800_000;

/// The latest instant, in milliseconds after the Unix epoch, that chrono's
/// UTC date-time holds: December 31, 262142 CE, 23:59:59.999.
pub const MAX_UNIX_MS: i64 = 8_210_266_876_799_999;

/// Parses `name` with `<chrono_tz::Tz as FromStr>::from_str` and reports
/// whether it named a time zone of the database.
#[verifier::external_body]
pub(crate) fn is_known_timezone(name: &str) -> (r: bool)
    ensures
        r == is_iana_timezone(name@),
{
    name.parse::<Tz>().is_ok()
}

/// Reads the wall clock in `timezone` at `at_unix_ms`: parses the zone with
/// `Tz::from_str`, builds the instant with `Utc.timestamp_millis_opt(..).single()`,
/// converts it with `with_timezone`, and reads `weekday().num_days_from_monday()`,
/// `hour()` and `minute()`.  The contract claims that the result is a function
/// of the zone name and the instant; that it is `None` exactly for an
/// unknown zone or an instant outside the range chrono's `NaiveDate` holds
/// (`timestamp_millis_opt` gives no single instant there, and the other
/// steps cannot fail); and the ranges that chrono documents for the three
/// fields.
#[verifier::external_body]
pub(crate) fn local_wall_clock(timezone: &str, at_unix_ms: i64) -> (r: Option<(u32, u32, u32)>)
    ensures
        r == wall_clock(timezone@, at_unix_ms as int),
        r is None <==> (!is_iana_timezone(timezone@) || at_unix_ms < MIN_UNIX_MS || at_unix_ms
            > MAX_UNIX_MS),
        r matches Some((d, h, m)) ==> d < 7 && h < 24 && m < 60,
{
    let tz: Tz = timezone.parse().ok()?;
    let local = Utc.timestamp_millis_opt(at_unix_ms).single()?.with_timezone(&tz);
    Some((local.weekday().num_days_from_monday(), local.hour(), local.minute()))
}

} // verus!
