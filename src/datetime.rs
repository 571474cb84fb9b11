//! Local calendar date-times, with the calendar arithmetic and formatting
//! done by chrono.

use vstd::prelude::*;

use chrono::{Datelike, Timelike};
use std::fmt::Write;

verus! {

/// Earliest year that chrono's dates reach.
pub const MIN_YEAR: i32 = -262143;

/// Latest year that chrono's dates reach.
pub const MAX_YEAR: i32 = 262142;

/// A date and time of day on the local clock, to the second.
#[derive(Debug, Clone, Copy, PartialEq, Eq, Structural)]
pub struct LocalDateTime {
    pub year: i32,
    pub month: u32,
    pub day: u32,
    pub hour: u32,
    pub minute: u32,
    pub second: u32,
}

pub open spec fn is_leap_year(y: int) -> bool {
    (y % 4 == 0 && y % 100 != 0) || y % 400 == 0
}

/// Number of days in month `m` (1 to 12) of year `y`.
pub open spec fn days_in_month(y: int, m: int) -> int {
    if m == 2 {
        if is_leap_year(y) {
            29
        } else {
            28
        }
    } else if m == 4 || m == 6 || m == 9 || m == 11 {
        30
    } else {
        31
    }
}

/// Days from 0000-03-01 to the given date of the proleptic Gregorian
/// calendar.
pub open spec fn day_number(y: int, m: int, d: int) -> int {
    let y1 = if m <= 2 {
        y - 1
    } else {
        y
    };
    let era = y1 / 400;
    let yoe = y1 - era * 400;
    let mp = if m > 2 {
        m - 3
    } else {
        m + 9
    };
    let doy = (153 * mp + 2) / 5 + d - 1;
    era * 146097 + yoe * 365 + yoe / 4 - yoe / 100 + doy
}

impl LocalDateTime {
    /// A real calendar date within chrono's range and a time of day.
    pub open spec fn wf(self) -> bool {
        &&& MIN_YEAR <= self.year <= MAX_YEAR
        &&& 1 <= self.month <= 12
        &&& 1 <= self.day <= days_in_month(self.year as int, self.month as int)
        &&& self.hour < 24
        &&& self.minute < 60
        &&& self.second < 60
    }

    pub open spec fn days(self) -> int {
        day_number(self.year as int, self.month as int, self.day as int)
    }

    pub open spec fn same_time_of_day(self, other: LocalDateTime) -> bool {
        self.hour == other.hour && self.minute == other.minute && self.second == other.second
    }

    /// Builds a date-time; `None` unless the fields make a valid one.
    pub fn new(year: i32, month: u32, day: u32, hour: u32, minute: u32, second: u32) -> (r:
        Option<LocalDateTime>)
        ensures
            r is Some <==> (LocalDateTime { year, month, day, hour, minute, second }).wf(),
            r is Some ==> r->0 == (LocalDateTime { year, month, day, hour, minute, second }),
    {
        let t = LocalDateTime { year, month, day, hour, minute, second };
        if year < MIN_YEAR || year > MAX_YEAR || month < 1 || month > 12 || hour >= 24 || minute
            >= 60 || second >= 60 || day < 1 || day > month_length(year, month) {
            None
        } else {
            Some(t)
        }
    }
}

/// Number of days in a month of a year.
pub fn month_length(year: i32, month: u32) -> (r: u32)
    requires
        1 <= month <= 12,
    ensures
        r == days_in_month(year as int, month as int),
{
    if month == 2 {
        if (year % 4 == 0 && year % 100 != 0) || year % 400 == 0 {
            29
        } else {
            28
        }
    } else if month == 4 || month == 6 || month == 9 || month == 11 {
        30
    } else {
        31
    }
}

/// The date-time `k` days after `t` (before it for a negative `k`) at the
/// same time of day, when that date lies within chrono's range.
pub open spec fn days_later(t: LocalDateTime, k: int) -> Option<LocalDateTime> {
    if exists|r: LocalDateTime| r.wf() && r.days() == t.days() + k && r.same_time_of_day(t) {
        Some(
            choose|r: LocalDateTime| r.wf() && r.days() == t.days() + k && r.same_time_of_day(t),
        )
    } else {
        None
    }
}

/// The date-time `k` months after `t` (before it for a negative `k`) at the
/// same time of day; the day of the month is cut down to the length of the
/// month reached. `None` when that month lies outside chrono's range.
pub open spec fn months_later(t: LocalDateTime, k: int) -> Option<LocalDateTime> {
    let index = t.year * 12 + (t.month - 1) + k;
    let y = index / 12;
    let m = index % 12 + 1;
    let d = if t.day <= days_in_month(y, m) {
        t.day as int
    } else {
        days_in_month(y, m)
    };
    if MIN_YEAR <= y <= MAX_YEAR {
        Some(
            LocalDateTime {
                year: y as i32,
                month: m as u32,
                day: d as u32,
                hour: t.hour,
                minute: t.minute,
                second: t.second,
            },
        )
    } else {
        None
    }
}

/// The text that chrono's `format` makes of `t` with the strftime `pattern`,
/// or `None` where chrono reports the pattern as malformed.
pub uninterp spec fn strftime_text(t: LocalDateTime, pattern: Seq<char>) -> Option<Seq<char>>;

/// Relies on `chrono::Local::now`: the current date and time on the local
/// clock, whatever it is.
#[verifier::external_body]
pub(crate) fn now_local() -> (r: LocalDateTime)
    ensures
        r.wf(),
{
    let n = chrono::Local::now().naive_local();
    LocalDateTime {
        year: n.year(),
        month: n.month(),
        day: n.day(),
        hour: n.hour(),
        minute: n.minute(),
        second: n.second(),
    }
}

/// Relies on `chrono::NaiveDateTime::checked_add_days`: the date `n` days
/// later, `None` out of range.
#[verifier::external_body]
pub(crate) fn add_days(t: LocalDateTime, n: u64) -> (r: Option<LocalDateTime>)
    requires
        t.wf(),
    ensures
        r == days_later(t, n as int),
{
    let dt = chrono::NaiveDate::from_ymd_opt(t.year, t.month, t.day)?.and_hms_opt(
        t.hour,
        t.minute,
        t.second,
    )?;
    dt.checked_add_days(chrono::Days::new(n)).map(
        |d| LocalDateTime { year: d.year(), month: d.month(), day: d.day(), ..t },
    )
}

/// Relies on `chrono::NaiveDateTime::checked_sub_days`: the date `n` days
/// earlier, `None` out of range.
#[verifier::external_body]
pub(crate) fn sub_days(t: LocalDateTime, n: u64) -> (r: Option<LocalDateTime>)
    requires
        t.wf(),
    ensures
        r == days_later(t, -(n as int)),
{
    let dt = chrono::NaiveDate::from_ymd_opt(t.year, t.month, t.day)?.and_hms_opt(
        t.hour,
        t.minute,
        t.second,
    )?;
    dt.checked_sub_days(chrono::Days::new(n)).map(
        |d| LocalDateTime { year: d.year(), month: d.month(), day: d.day(), ..t },
    )
}

/// Relies on `chrono::NaiveDateTime::checked_add_months`: the same day `n`
/// months later, cut down to the month's length, `None` out of range.
#[verifier::external_body]
pub(crate) fn add_months(t: LocalDateTime, n: u32) -> (r: Option<LocalDateTime>)
    requires
        t.wf(),
    ensures
        r == months_later(t, n as int),
{
    let dt = chrono::NaiveDate::from_ymd_opt(t.year, t.month, t.day)?.and_hms_opt(
        t.hour,
        t.minute,
        t.second,
    )?;
    dt.checked_add_months(chrono::Months::new(n)).map(
        |d| LocalDateTime { year: d.year(), month: d.month(), day: d.day(), ..t },
    )
}

/// Relies on `chrono::NaiveDateTime::checked_sub_months`: the same day `n`
/// months earlier, cut down to the month's length, `None` out of range.
#[verifier::external_body]
pub(crate) fn sub_months(t: LocalDateTime, n: u32) -> (r: Option<LocalDateTime>)
    requires
        t.wf(),
    ensures
        r == months_later(t, -(n as int)),
{
    let dt = chrono::NaiveDate::from_ymd_opt(t.year, t.month, t.day)?.and_hms_opt(
        t.hour,
        t.minute,
        t.second,
    )?;
    dt.checked_sub_months(chrono::Months::new(n)).map(
        |d| LocalDateTime { year: d.year(), month: d.month(), day: d.day(), ..t },
    )
}

/// Relies on `chrono::NaiveDateTime::format`: renders `t` with a strftime
/// pattern; `None` where the pattern is malformed.
#[verifier::external_body]
pub(crate) fn format_date_time(t: LocalDateTime, pattern: &str) -> (r: Option<String>)
    requires
        t.wf(),
    ensures
        match r {
            Some(s) => strftime_text(t, pattern@) == Some(s@),
            None => strftime_text(t, pattern@) is None,
        },
{
    let dt = chrono::NaiveDate::from_ymd_opt(t.year, t.month, t.day)?.and_hms_opt(
        t.hour,
        t.minute,
        t.second,
    )?;
    let mut out = String::new();
    write!(out, "{}", dt.format(pattern)).ok()?;
    Some(out)
}

} // verus!
