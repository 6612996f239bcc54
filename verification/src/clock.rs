//! The "local minute" clock.
//!
//! The daemon counts time in minutes of *local wall-clock* time (`(epoch +
//! gmtoff) / 60`). A DST transition therefore shows up as a jump in the minute
//! counter, which is what lets the daemon run skipped jobs or avoid repeating
//! them.

use chrono::{Offset, TimeZone};
use vstd::prelude::*;

use crate::calendar::{from_timestamp, WallTime};
use crate::zone::Zone;

verus! {

/// `chrono::Utc::now`: the current time in seconds since the epoch. Nothing
/// is said of which time that is. A machine whose clock stands before the epoch
/// makes it panic.
#[verifier::external_body]
pub(crate) fn utc_seconds() -> (r: i64)
    ensures
        0 <= r < crate::calendar::end_second(),
{
    chrono::Utc::now().timestamp()
}

/// `chrono::Local` at an instant: the offset from UTC, in seconds east, of the
/// machine's own zone, always less than a day. Nothing is said of which zone
/// that is. A machine whose zone is a day or more away from UTC makes it panic.
#[verifier::external_body]
fn local_offset(secs: i64) -> (r: i32)
    requires
        crate::calendar::min_second() <= secs < crate::calendar::end_second(),
    ensures
        -86400 < r < 86400,
{
    chrono::Local.timestamp_opt(secs, 0).earliest().unwrap().offset().fix().local_minus_utc()
}

/// The local minute of an epoch second, given the offset.
pub fn local_minute(secs: i64, gmtoff: i32) -> (r: i64)
    requires
        i64::MIN <= secs + gmtoff <= i64::MAX,
    ensures
        r == (secs + gmtoff) / 60,
{
    let local: i64 = secs + gmtoff as i64;
    local.checked_div_euclid(60).unwrap()
}

/// Local minute and offset for an epoch second.
pub fn at_epoch(secs: i64) -> (r: (i64, i32))
    requires
        crate::calendar::min_second() <= secs < crate::calendar::end_second(),
    ensures
        -86400 < r.1 < 86400,
        r.0 == (secs + r.1) / 60,
{
    proof {
        crate::calendar::lemma_range();
    }
    let gmtoff = local_offset(secs);
    (local_minute(secs, gmtoff), gmtoff)
}

/// The current local minute and the UTC offset (seconds) in effect.
pub fn now() -> (r: (i64, i32))
    ensures
        -86400 < r.1 < 86400,
        exists|secs: int|
            0 <= secs < crate::calendar::end_second() && r.0 == #[trigger] (secs + r.1) / 60,
{
    proof {
        crate::calendar::lemma_range();
    }
    let secs = utc_seconds();
    let r = at_epoch(secs);
    assert(r.0 == (secs as int + r.1) / 60);
    r
}

/// Wall-clock fields for a local minute (interpreting the minute counter as
/// wall time directly).
pub fn wall_time(minute: i64) -> (r: WallTime)
    requires
        crate::calendar::min_second() <= minute * 60 < crate::calendar::end_second(),
    ensures
        r.valid(),
        r.second_number() == minute * 60,
{
    proof {
        crate::calendar::lemma_range();
    }
    from_timestamp(minute * 60).unwrap()
}

/// Wall-clock fields for a local minute as seen in `zone`, where `gmtoff` is
/// the local UTC offset the minute counter was computed with.
pub fn wall_time_in_tz(minute: i64, gmtoff: i32, zone: &Zone) -> (r: WallTime)
    requires
        i64::MIN <= minute * 60 <= i64::MAX,
        i64::MIN <= minute * 60 - gmtoff <= i64::MAX,
    ensures
        r.valid(),
        ({
            let t = minute * 60 - gmtoff;
            r.second_number() == crate::zone::saturated(
                t + zone@.offset(t) - zone@.correction(t),
            )
        }),
{
    zone.wall_time(minute * 60 - gmtoff as i64)
}

/// Seconds since the epoch at the start of the *next* local minute after
/// `secs`, given the current offset.
pub fn next_minute_epoch(secs: i64, gmtoff: i32) -> (r: i64)
    requires
        i64::MIN <= secs + gmtoff,
        secs + gmtoff + 60 <= i64::MAX,
        i64::MIN <= secs,
        secs + 60 <= i64::MAX,
    ensures
        r == ((secs + gmtoff) / 60 + 1) * 60 - gmtoff,
        secs < r <= secs + 60,
{
    let local = local_minute(secs, gmtoff);
    (local + 1) * 60 - gmtoff as i64
}

/// A local minute holds the sixty seconds from its start on, as local clocks
/// show them.
pub proof fn law_local_minutes(secs: i64, gmtoff: i32, r: i64)
    requires
        call_ensures(local_minute, (secs, gmtoff), r),
    ensures
        r * 60 <= secs + gmtoff < r * 60 + 60,
{
}

/// The next minute starts within the next sixty seconds, when local clocks turn
/// to a whole minute.
pub proof fn law_next_minute(secs: i64, gmtoff: i32, r: i64)
    requires
        call_ensures(next_minute_epoch, (secs, gmtoff), r),
    ensures
        secs < r <= secs + 60,
        (r + gmtoff) % 60 == 0,
{
}

/// An instant lies in the local minute that it is counted in.
pub proof fn law_minute_of_an_instant(secs: i64, r: (i64, i32))
    requires
        call_ensures(at_epoch, (secs,), r),
    ensures
        r.0 * 60 <= secs + r.1 < r.0 * 60 + 60,
        -86400 < r.1 < 86400,
{
}

/// A local minute read as wall-clock time begins that minute.
pub proof fn law_wall_time_of_a_minute(minute: i64, r: WallTime)
    requires
        call_ensures(wall_time, (minute,), r),
    ensures
        r.valid(),
        r.minute_number() == minute,
        r.second == 0,
{
}

} // verus!
