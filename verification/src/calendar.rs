//! Wall-clock times in the proleptic Gregorian calendar.

use chrono::{Datelike, Timelike};
use vstd::prelude::*;

verus! {

/// First and last year a wall-clock time can lie in (`chrono`'s range).
pub const MIN_YEAR: i32 = -262143;

pub const MAX_YEAR: i32 = 262142;

/// A wall-clock time, to the second.
#[derive(Debug, Clone, Copy, PartialEq, Eq, Structural)]
pub struct WallTime {
    pub year: i32,
    pub month: u32,
    pub day: u32,
    pub hour: u32,
    pub minute: u32,
    pub second: u32,
}

pub open spec fn leap_year(y: int) -> bool {
    y % 4 == 0 && (y % 100 != 0 || y % 400 == 0)
}

pub open spec fn month_days(y: int, m: int) -> int {
    if m == 2 {
        if leap_year(y) {
            29
        } else {
            28
        }
    } else if m == 4 || m == 6 || m == 9 || m == 11 {
        30
    } else {
        31
    }
}

/// Days from 1 January of year 1 to 1 January of year `y`.
pub open spec fn days_before_year(y: int) -> int {
    365 * (y - 1) + (y - 1) / 4 - (y - 1) / 100 + (y - 1) / 400
}

/// Days from 1 January to the first of month `m` of year `y`.
pub open spec fn days_before_month(y: int, m: int) -> int
    decreases m,
{
    if m <= 1 {
        0
    } else {
        days_before_month(y, m - 1) + month_days(y, m - 1)
    }
}

/// Days from 1970-01-01 to the given date.
pub open spec fn epoch_day(y: int, m: int, d: int) -> int {
    days_before_year(y) - days_before_year(1970) + days_before_month(y, m) + d - 1
}

impl WallTime {
    pub open spec fn valid(self) -> bool {
        &&& MIN_YEAR <= self.year <= MAX_YEAR
        &&& 1 <= self.month <= 12
        &&& 1 <= self.day <= month_days(self.year as int, self.month as int)
        &&& self.hour < 24
        &&& self.minute < 60
        &&& self.second < 60
    }

    /// Days since 1970-01-01.
    pub open spec fn day_number(self) -> int {
        epoch_day(self.year as int, self.month as int, self.day as int)
    }

    /// Minutes since 1970-01-01 00:00.
    pub open spec fn minute_number(self) -> int {
        self.day_number() * 1440 + self.hour * 60 + self.minute
    }

    /// Seconds since 1970-01-01 00:00:00.
    pub open spec fn second_number(self) -> int {
        self.minute_number() * 60 + self.second
    }

    /// Day of the week, Sunday being 0.
    pub open spec fn weekday(self) -> int {
        (self.day_number() + 4) % 7
    }
}

/// Seconds since 1970-01-01 of the first representable second, and of the
/// second after the last one.
pub open spec fn min_second() -> int {
    epoch_day(MIN_YEAR as int, 1, 1) * 86400
}

pub open spec fn end_second() -> int {
    epoch_day(MAX_YEAR + 1, 1, 1) * 86400
}

/// `chrono::DateTime::from_timestamp`: the UTC wall-clock time `secs` seconds
/// after the epoch, or `None` outside the representable years.
#[verifier::external_body]
pub(crate) fn from_timestamp(secs: i64) -> (r: Option<WallTime>)
    ensures
        r is Some <==> min_second() <= secs < end_second(),
        r matches Some(t) ==> t.valid() && t.second_number() == secs,
{
    let t = chrono::DateTime::from_timestamp(secs, 0)?.naive_utc();
    Some(
        WallTime {
            year: t.year(),
            month: t.month(),
            day: t.day(),
            hour: t.hour(),
            minute: t.minute(),
            second: t.second(),
        },
    )
}

/// `chrono::Weekday::num_days_from_sunday` of a date.
#[verifier::external_body]
pub(crate) fn weekday_of(t: &WallTime) -> (r: u32)
    requires
        t.valid(),
    ensures
        r == t.weekday(),
{
    let date = chrono::NaiveDate::from_ymd_opt(t.year, t.month, t.day).unwrap();
    date.weekday().num_days_from_sunday()
}

/// `chrono::NaiveDateTime::checked_add_signed` with a whole number of
/// minutes: the time that much later, or `None` past the last year.
#[verifier::external_body]
pub(crate) fn plus_minutes(t: &WallTime, minutes: u32) -> (r: Option<WallTime>)
    requires
        t.valid(),
    ensures
        r is Some <==> t.second_number() + 60 * minutes < end_second(),
        r matches Some(u) ==> u.valid() && u.second_number() == t.second_number() + 60 * minutes,
{
    let date = chrono::NaiveDate::from_ymd_opt(t.year, t.month, t.day)?;
    let from = date.and_hms_opt(t.hour, t.minute, t.second)?;
    let u = from.checked_add_signed(chrono::TimeDelta::minutes(i64::from(minutes)))?;
    Some(
        WallTime {
            year: u.year(),
            month: u.month(),
            day: u.day(),
            hour: u.hour(),
            minute: u.minute(),
            second: u.second(),
        },
    )
}

/// The time `months` months after `t`: the same day of that month, or its
/// last day if it is shorter. The year may lie past the representable ones.
pub open spec fn months_later(t: WallTime, months: int) -> WallTime {
    let count = t.year * 12 + t.month - 1 + months;
    let year = count / 12;
    let month = count % 12 + 1;
    let last = month_days(year, month);
    WallTime {
        year: year as i32,
        month: month as u32,
        day: if t.day > last {
            last as u32
        } else {
            t.day
        },
        ..t
    }
}

/// `chrono::NaiveDate::checked_add_months` on the date: `months_later`, or `None`
/// past the last year.
#[verifier::external_body]
pub(crate) fn plus_months(t: &WallTime, months: u32) -> (r: Option<WallTime>)
    requires
        t.valid(),
    ensures
        r is Some <==> (t.year * 12 + t.month - 1 + months) / 12 <= MAX_YEAR,
        r matches Some(u) ==> u.valid() && u == months_later(*t, months as int),
{
    let date = chrono::NaiveDate::from_ymd_opt(t.year, t.month, t.day)?;
    let u = date.checked_add_months(chrono::Months::new(months))?;
    Some(
        WallTime {
            year: u.year(),
            month: u.month(),
            day: u.day(),
            hour: t.hour,
            minute: t.minute,
            second: t.second,
        },
    )
}

pub proof fn lemma_year_length(y: int)
    ensures
        days_before_year(y + 1) - days_before_year(y) == if leap_year(y) {
            366int
        } else {
            365int
        },
{
}

pub proof fn lemma_year_order(a: int, b: int)
    requires
        a < b,
    ensures
        days_before_year(a) + 365 + (if leap_year(a) {
            1int
        } else {
            0
        }) <= days_before_year(b),
    decreases b - a,
{
    lemma_year_length(a);
    if a + 1 < b {
        lemma_year_order(a + 1, b);
    }
}

pub proof fn lemma_months_sum(y: int)
    ensures
        days_before_month(y, 13) == 365 + (if leap_year(y) {
            1int
        } else {
            0
        }),
{
    reveal_with_fuel(days_before_month, 13);
}

pub proof fn lemma_month_order(y: int, a: int, b: int)
    requires
        1 <= a < b <= 13,
    ensures
        days_before_month(y, a) + month_days(y, a) <= days_before_month(y, b),
    decreases b - a,
{
    if a + 1 < b {
        lemma_month_order(y, a, b - 1);
    }
}

/// Order of dates: year, then month, then day.
pub open spec fn earlier_date(a: WallTime, b: WallTime) -> bool {
    ||| a.year < b.year
    ||| a.year == b.year && a.month < b.month
    ||| a.year == b.year && a.month == b.month && a.day < b.day
}

/// Later dates have larger day numbers.
pub proof fn lemma_date_order(a: WallTime, b: WallTime)
    requires
        a.valid(),
        b.valid(),
    ensures
        earlier_date(a, b) <==> a.day_number() < b.day_number(),
        a.day_number() == b.day_number() <==> a.year == b.year && a.month == b.month && a.day
            == b.day,
{
    if earlier_date(a, b) {
        lemma_date_order_one(a, b);
    }
    if earlier_date(b, a) {
        lemma_date_order_one(b, a);
    }
}

proof fn lemma_date_order_one(a: WallTime, b: WallTime)
    requires
        a.valid(),
        b.valid(),
        earlier_date(a, b),
    ensures
        a.day_number() < b.day_number(),
{
    let ya = a.year as int;
    let yb = b.year as int;
    let ma = a.month as int;
    let mb = b.month as int;
    lemma_month_order(ya, ma, 13);
    lemma_months_sum(ya);
    if ya < yb {
        lemma_year_order(ya, yb);
        lemma_months_nonneg(yb, mb);
    } else if ma < mb {
        lemma_month_order(ya, ma, mb);
    }
}

pub proof fn lemma_months_nonneg(y: int, m: int)
    ensures
        0 <= days_before_month(y, m),
    decreases m,
{
    if m > 1 {
        lemma_months_nonneg(y, m - 1);
    }
}

/// Minute numbers determine, and are ordered like, the fields down to the
/// minute.
pub proof fn lemma_minute_order(a: WallTime, b: WallTime)
    requires
        a.valid(),
        b.valid(),
    ensures
        a.minute_number() == b.minute_number() <==> a.year == b.year && a.month == b.month && a.day
            == b.day && a.hour == b.hour && a.minute == b.minute,
        earlier_date(a, b) ==> a.minute_number() < b.minute_number(),
        a.minute_number() < b.minute_number() ==> a.day_number() <= b.day_number(),
{
    lemma_date_order(a, b);
}

/// Valid times lie in the representable range.
pub proof fn lemma_second_bounds(t: WallTime)
    requires
        t.valid(),
    ensures
        min_second() <= t.second_number() < end_second(),
{
    let y = t.year as int;
    let m = t.month as int;
    lemma_month_order(y, m, 13);
    lemma_months_sum(y);
    lemma_year_order(y, MAX_YEAR + 1);
    lemma_months_nonneg(y, m);
    if MIN_YEAR < y {
        lemma_year_order(MIN_YEAR as int, y);
    }
}

/// The bounds of the representable range, and the times they belong to.
pub proof fn lemma_range()
    ensures
        -0x4000_0000_0000_0000 < min_second() < 0 < end_second() < 0x4000_0000_0000_0000,
        (WallTime {
            year: MIN_YEAR,
            month: 1,
            day: 1,
            hour: 0,
            minute: 0,
            second: 0,
        }).second_number() == min_second(),
        (WallTime {
            year: MAX_YEAR,
            month: 12,
            day: 31,
            hour: 23,
            minute: 59,
            second: 59,
        }).second_number() == end_second() - 1,
{
    lemma_months_sum(MAX_YEAR as int);
    lemma_year_length(MAX_YEAR as int);
    reveal_with_fuel(days_before_month, 2);
}

/// Days are numbered one after the other from 1 January 1970: through
/// each month, from its last day to the first of the next month, and from
/// 31 December to 1 January.
pub proof fn law_days_follow_each_other(y: int, m: int, d: int)
    requires
        1 <= m <= 12,
        1 <= d <= month_days(y, m),
    ensures
        epoch_day(1970, 1, 1) == 0,
        epoch_day(y, m, d + 1) == epoch_day(y, m, d) + 1,
        m < 12 ==> epoch_day(y, m + 1, 1) == epoch_day(y, m, month_days(y, m)) + 1,
        epoch_day(y + 1, 1, 1) == epoch_day(y, 12, 31) + 1,
        forall|t: WallTime| #[trigger]
            t.day_number() == epoch_day(t.year as int, t.month as int, t.day as int),
{
    lemma_year_length(y);
    lemma_months_sum(y);
    reveal_with_fuel(days_before_month, 2);
}

/// The days of the week follow each other, and 1 January 1970 was a Thursday.
pub proof fn law_days_of_the_week(a: WallTime, b: WallTime)
    requires
        b.day_number() == a.day_number() + 1,
    ensures
        a.day_number() == 0 ==> a.weekday() == 4,
        0 <= a.weekday() < 7,
        a.weekday() < 6 ==> b.weekday() == a.weekday() + 1,
        a.weekday() == 6 ==> b.weekday() == 0,
{
}

/// Months have 31 days, but April, June, September and November have 30, and
/// February has 28, or 29 in a leap year. Every fourth year is one, but of the years
/// that end a century only every fourth.
pub proof fn law_lengths_of_months(y: int, century: int)
    ensures
        forall|m: int|
            m != 2 ==> #[trigger] month_days(y, m) == if m == 4 || m == 6 || m == 9 || m == 11 {
                30int
            } else {
                31
            },
        month_days(y, 2) == 29 <==> leap_year(y),
        month_days(y, 2) == 28 <==> !leap_year(y),
        leap_year(100 * century) <==> century % 4 == 0,
        y % 100 != 0 ==> (leap_year(y) <==> y % 4 == 0),
{
    assert((100 * century) % 400 == 0 <==> century % 4 == 0);
    assert((100 * century) % 100 == 0);
    assert((100 * century) % 4 == 0);
}

/// A time some months later lies in the month that many months on, on the same day
/// or, where that month has fewer days, on its last, at the same time of the day.
pub proof fn law_months_later(t: WallTime, months: int)
    requires
        t.valid(),
        0 <= months,
        (t.year * 12 + t.month - 1 + months) / 12 <= MAX_YEAR,
    ensures
        ({
            let u = months_later(t, months);
            let last = month_days(u.year as int, u.month as int);
            &&& u.valid()
            &&& 12 * u.year + u.month == 12 * t.year + t.month + months
            &&& t.day <= last ==> u.day == t.day
            &&& t.day > last ==> u.day == last
            &&& u.hour == t.hour && u.minute == t.minute && u.second == t.second
        }),
{
}

} // verus!
