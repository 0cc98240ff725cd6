//! The one place where calendar arithmetic is delegated to `chrono`.
//!
//! The expiry sweep needs the instant `ttl` minutes before now; computing it
//! crosses day, month and year boundaries, so it is left to `chrono` and the
//! result is only named here, never restated.

use crate::timestamp::Timestamp;
use chrono::Datelike;
use chrono::Timelike;
use vstd::prelude::*;

verus! {

/// What `chrono`'s calendar arithmetic yields for "`minutes` minutes before
/// `t`": a pure function of its arguments.
pub uninterp spec fn minutes_before_spec(t: Timestamp, minutes: int) -> Option<Timestamp>;

/// Relies on `chrono::NaiveDate::from_ymd_opt`, `NaiveDate::and_hms_opt` and
/// `NaiveDateTime::checked_sub_signed`: the instant `minutes` minutes before
/// `t`, or `None` when `t` does not name a valid instant, the result is out
/// of `chrono`'s range, or the resulting year falls outside `u32`.  A chrono
/// datetime carries a valid calendar date and time of day, and for the
/// non-negative years that survive the conversion chrono's leap-year rule is
/// the Gregorian one of `days_in_month`, so a returned timestamp is well
/// formed.
#[verifier::external_body]
pub fn minutes_before(t: &Timestamp, minutes: u32) -> (r: Option<Timestamp>)
    ensures
        r == minutes_before_spec(*t, minutes as int),
        r matches Some(c) ==> c.wf(),
{
    let year = i32::try_from(t.year).ok()?;
    let date = chrono::NaiveDate::from_ymd_opt(year, t.month, t.day)?;
    let at = date.and_hms_opt(t.hour, t.minute, t.second)?;
    let delta = chrono::TimeDelta::try_minutes(minutes as i64)?;
    let back = at.checked_sub_signed(delta)?;
    Some(Timestamp {
        year: u32::try_from(back.year()).ok()?,
        month: back.month(),
        day: back.day(),
        hour: back.hour(),
        minute: back.minute(),
        second: back.second(),
    })
}

} // verus!
