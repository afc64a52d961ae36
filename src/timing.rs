use chrono::Datelike;
use vstd::prelude::*;

verus! {

pub const SECS_PER_DAY: i64 = 86400;

/// The UTC calendar date `(year, month, day)` of a Unix timestamp in seconds,
/// or `None` where the calendar does not reach.
pub uninterp spec fn utc_date_of(secs: int) -> Option<(int, int, int)>;

/// Relies on chrono's `DateTime::from_timestamp` (`None` out of range) and on
/// `Datelike::{year, month, day}` of the result, whose month lies in `1..=12`
/// and whose day lies in `1..=31`.
#[verifier::external_body]
fn utc_date(secs: i64) -> (r: Option<(i32, u32, u32)>)
    ensures
        r matches Some(d) ==> utc_date_of(secs as int) == Some((d.0 as int, d.1 as int, d.2 as int))
            && 1 <= d.1 <= 12 && 1 <= d.2 <= 31,
        r is None ==> utc_date_of(secs as int) is None,
{
    chrono::DateTime::from_timestamp(secs, 0).map(|t| (t.year(), t.month(), t.day()))
}

/// A calendar date as the integer `YYYYMMDD`.
pub open spec fn date_key(year: int, month: int, day: int) -> int {
    year * 10000 + month * 100 + day
}

/// The `YYYYMMDD` key of the UTC date `days` days before `now`.
pub open spec fn days_before_key(now: int, days: int) -> Option<int> {
    let secs = now - days * SECS_PER_DAY;
    if secs < i64::MIN || secs > i64::MAX {
        None
    } else {
        match utc_date_of(secs) {
            Some(d) => Some(date_key(d.0, d.1, d.2)),
            None => None,
        }
    }
}

/// The `YYYYMMDD` key of the UTC date `days_in_past` days before `now`
/// (seconds since the Unix epoch): the lower bound on the dates of the
/// observations that a scoring cycle reads. `None` where that date is out of
/// the calendar's reach.
pub fn get_last_days(now: i64, days_in_past: i64) -> (r: Option<i64>)
    ensures
        r matches Some(k) ==> days_before_key(now as int, days_in_past as int) == Some(k as int),
        r is None ==> days_before_key(now as int, days_in_past as int) is None,
{
    proof {
        assert(-0x8000_0000_0000_0000 * 86400 <= (days_in_past as int) * 86400 <= 0x8000_0000_0000_0000 * 86400) by (nonlinear_arith)
            requires
                -0x8000_0000_0000_0000 <= days_in_past <= 0x8000_0000_0000_0000,
        ;
    }
    let wide: i128 = now as i128 - days_in_past as i128 * SECS_PER_DAY as i128;
    if wide < i64::MIN as i128 || wide > i64::MAX as i128 {
        return None;
    }
    match utc_date(wide as i64) {
        Some(d) => {
            let key: i64 = d.0 as i64 * 10000 + d.1 as i64 * 100 + d.2 as i64;
            Some(key)
        },
        None => None,
    }
}

} // verus!
