//! Wall-clock dates on the calendar the user sees, and the calendar arithmetic
//! that `chrono` does on them.
//!
//! A date always lies within the years a `chrono::NaiveDate` covers, and a time
//! has no seconds: occurrences are shown to the minute.

use vstd::prelude::*;
use chrono::Datelike;
use chrono::Timelike;
use crate::adapters::datetime_input::{calendar_date, date_exists, days_in_month};

verus! {

/// A calendar date.
#[derive(Debug, Clone, Copy, PartialEq, Eq, Structural)]
pub struct LocalDate {
    pub year: i32,
    pub month: u32,
    pub day: u32,
}

/// A date and a time of day, to the minute.
#[derive(Debug, Clone, Copy, PartialEq, Eq, Structural)]
pub struct LocalDateTime {
    pub date: LocalDate,
    pub hour: u32,
    pub minute: u32,
}

/// Whether the date exists and lies within the years `chrono` covers.
pub open spec fn valid_date(d: LocalDate) -> bool {
    calendar_date(d.year as int, d.month as int, d.day as int)
}

/// Whether the date is valid and the time of day lies within the day.
pub open spec fn valid_time(t: LocalDateTime) -> bool {
    valid_date(t.date) && t.hour < 24 && t.minute < 60
}

/// Whether `a` comes strictly before `b`.
pub open spec fn earlier(a: LocalDateTime, b: LocalDateTime) -> bool {
    if a.date.year != b.date.year {
        a.date.year < b.date.year
    } else if a.date.month != b.date.month {
        a.date.month < b.date.month
    } else if a.date.day != b.date.day {
        a.date.day < b.date.day
    } else if a.hour != b.hour {
        a.hour < b.hour
    } else {
        a.minute < b.minute
    }
}

/// Whether `a` comes strictly before `b`.
pub fn is_earlier(a: LocalDateTime, b: LocalDateTime) -> (r: bool)
    ensures
        r == earlier(a, b),
{
    if a.date.year != b.date.year {
        a.date.year < b.date.year
    } else if a.date.month != b.date.month {
        a.date.month < b.date.month
    } else if a.date.day != b.date.day {
        a.date.day < b.date.day
    } else if a.hour != b.hour {
        a.hour < b.hour
    } else {
        a.minute < b.minute
    }
}

pub open spec fn date_from(t: (i32, u32, u32)) -> LocalDate {
    LocalDate { year: t.0, month: t.1, day: t.2 }
}

pub open spec fn opt_date(o: Option<(i32, u32, u32)>) -> Option<LocalDate> {
    match o {
        Some(t) => Some(date_from(t)),
        None => None,
    }
}

/// The number of days from 1970-01-01 to the date in the proleptic Gregorian
/// calendar, negative before it. The year is counted from March so that the
/// leap day ends it; shifting by a thousand 400-year cycles keeps every
/// quotient over non-negative numbers.
pub open spec fn day_number(d: LocalDate) -> int {
    let y = if d.month <= 2 { d.year - 1 } else { d.year as int };
    let shifted = y + 400_000;
    let era = shifted / 400 - 1000;
    let yoe = shifted % 400;
    let mp = if d.month > 2 { d.month - 3 } else { d.month + 9 };
    let doy = (153 * mp + 2) / 5 + d.day - 1;
    let doe = yoe * 365 + yoe / 4 - yoe / 100 + doy;
    era * 146_097 + doe - 719_468
}

/// The day number of the first date `chrono` covers, January 1 of -262143.
pub open spec fn first_day_number() -> int {
    day_number(LocalDate { year: -262143i32, month: 1u32, day: 1u32 })
}

/// The day number of the last date `chrono` covers, December 31 of 262142.
pub open spec fn last_day_number() -> int {
    day_number(LocalDate { year: 262142i32, month: 12u32, day: 31u32 })
}

/// The day number of a valid date.
pub fn day_number_of(d: LocalDate) -> (r: i64)
    requires
        valid_date(d),
    ensures
        r == day_number(d),
{
    let y: i64 = if d.month <= 2 { d.year as i64 - 1 } else { d.year as i64 };
    let shifted: i64 = y + 400_000;
    let era: i64 = shifted / 400 - 1000;
    let yoe: i64 = shifted % 400;
    let mp: i64 = if d.month > 2 { d.month as i64 - 3 } else { d.month as i64 + 9 };
    let doy: i64 = (153 * mp + 2) / 5 + d.day as i64 - 1;
    let doe: i64 = yoe * 365 + yoe / 4 - yoe / 100 + doy;
    era * 146_097 + doe - 719_468
}

/// The date `n` days after the given one: the valid date whose day number
/// is `n` more, while that stays within the dates `chrono` covers.
#[verifier::opaque]
pub open spec fn days_later(year: i32, month: u32, day: u32, n: u64) -> Option<(i32, u32, u32)> {
    let target = day_number(LocalDate { year, month, day }) + n;
    if target <= last_day_number() {
        Some(choose|t: (i32, u32, u32)| valid_date(date_from(t)) && day_number(date_from(t)) == target)
    } else {
        None
    }
}

/// The date `n` days before the given one: the valid date whose day number
/// is `n` less, while that stays within the dates `chrono` covers.
#[verifier::opaque]
pub open spec fn days_earlier(year: i32, month: u32, day: u32, n: u64) -> Option<(i32, u32, u32)> {
    let target = day_number(LocalDate { year, month, day }) - n;
    if target >= first_day_number() {
        Some(choose|t: (i32, u32, u32)| valid_date(date_from(t)) && day_number(date_from(t)) == target)
    } else {
        None
    }
}

/// The day of the week of a date, counted from Sunday as 0: 1970-01-01,
/// day number 0, was a Thursday.
#[verifier::opaque]
pub open spec fn weekday_number(year: i32, month: u32, day: u32) -> u32 {
    ((day_number(LocalDate { year, month, day }) + 4) % 7) as u32
}

/// The number of minutes from 1970-01-01 00:00 to the date and time.
pub open spec fn minute_number(t: LocalDateTime) -> int {
    day_number(t.date) * 1440 + t.hour * 60 + t.minute
}

/// The date and time `n` minutes after the given one: the valid time whose
/// minute number is `n` more, while its date stays within the dates `chrono`
/// covers.
#[verifier::opaque]
pub open spec fn minutes_later(year: i32, month: u32, day: u32, hour: u32, minute: u32, n: i64) -> Option<
    (i32, u32, u32, u32, u32),
> {
    let target = minute_number(LocalDateTime { date: LocalDate { year, month, day }, hour, minute }) + n;
    if first_day_number() * 1440 <= target <= last_day_number() * 1440 + 1439 {
        Some(choose|t: (i32, u32, u32, u32, u32)|
            valid_time(LocalDateTime { date: LocalDate { year: t.0, month: t.1, day: t.2 }, hour: t.3, minute: t.4 })
            && minute_number(LocalDateTime { date: LocalDate { year: t.0, month: t.1, day: t.2 }, hour: t.3, minute: t.4 }) == target)
    } else {
        None
    }
}

/// Calls `chrono::NaiveDate::checked_add_days`: the valid date whose day
/// number is `n` more, or `None` when that passes `NaiveDate::MAX`. The
/// contract also states that a move of at most four weeks that stays in the
/// same month only moves the day of the month.
#[verifier::external_body]
pub(crate) fn add_days(d: LocalDate, n: u64) -> (r: Option<LocalDate>)
    requires
        valid_date(d),
    ensures
        r == opt_date(days_later(d.year, d.month, d.day, n)),
        r is Some <==> day_number(d) + n <= last_day_number(),
        r matches Some(x) ==> day_number(x) == day_number(d) + n,
        r matches Some(x) ==> valid_date(x),
        r matches Some(x) ==> (n <= 28 && x.month == d.month ==> x.year == d.year && x.day == d.day + n),
{
    let date = chrono::NaiveDate::from_ymd_opt(d.year, d.month, d.day).unwrap();
    match date.checked_add_days(chrono::Days::new(n)) {
        Some(x) => Some(LocalDate { year: x.year(), month: x.month(), day: x.day() }),
        None => None,
    }
}

/// Calls `chrono::NaiveDate::checked_sub_days`: the valid date whose day
/// number is `n` less, or `None` before `NaiveDate::MIN` (January 1 of
/// 262143 BCE, year -262143). The contract also states that a week back from
/// a date after that first year always exists.
#[verifier::external_body]
pub(crate) fn sub_days(d: LocalDate, n: u64) -> (r: Option<LocalDate>)
    requires
        valid_date(d),
    ensures
        r == opt_date(days_earlier(d.year, d.month, d.day, n)),
        r is Some <==> day_number(d) - n >= first_day_number(),
        r matches Some(x) ==> day_number(x) == day_number(d) - n,
        r matches Some(x) ==> valid_date(x),
        d.year > -262143 && n <= 7 ==> r is Some,
{
    let date = chrono::NaiveDate::from_ymd_opt(d.year, d.month, d.day).unwrap();
    match date.checked_sub_days(chrono::Days::new(n)) {
        Some(x) => Some(LocalDate { year: x.year(), month: x.month(), day: x.day() }),
        None => None,
    }
}

/// Calls `chrono::Weekday::num_days_from_sunday` on the date's weekday:
/// 0 for Sunday up to 6 for Saturday; 1970-01-01, day number 0, was a
/// Thursday.
#[verifier::external_body]
pub(crate) fn weekday_from_sunday(d: LocalDate) -> (r: u32)
    requires
        valid_date(d),
    ensures
        r == weekday_number(d.year, d.month, d.day),
        r == (day_number(d) + 4) % 7,
{
    let date = chrono::NaiveDate::from_ymd_opt(d.year, d.month, d.day).unwrap();
    date.weekday().num_days_from_sunday()
}

/// The date `n` months later, its day clamped to the length of the month it
/// lands in; `None` past the years `chrono` covers.
pub open spec fn months_added(d: LocalDate, n: u32) -> Option<LocalDate> {
    let total = d.year * 12 + d.month - 1 + n;
    let year = total / 12;
    let month = total % 12 + 1;
    let day = if d.day > days_in_month(year, month) {
        days_in_month(year, month)
    } else {
        d.day as int
    };
    if n == 0 {
        Some(d)
    } else if n > i32::MAX || total > i32::MAX || !calendar_date(year, month, day) {
        None
    } else {
        Some(LocalDate { year: year as i32, month: month as u32, day: day as u32 })
    }
}

/// Calls `chrono::NaiveDate::checked_add_months`, which its documentation
/// describes as moving the date `n` months on, clamping the day to the last
/// day of the month it lands in, and returning `None` out of range.
#[verifier::external_body]
pub(crate) fn add_months(d: LocalDate, n: u32) -> (r: Option<LocalDate>)
    requires
        valid_date(d),
    ensures
        r == months_added(d, n),
{
    let date = chrono::NaiveDate::from_ymd_opt(d.year, d.month, d.day).unwrap();
    match date.checked_add_months(chrono::Months::new(n)) {
        Some(x) => Some(LocalDate { year: x.year(), month: x.month(), day: x.day() }),
        None => None,
    }
}

pub open spec fn time_from(t: (i32, u32, u32, u32, u32)) -> LocalDateTime {
    LocalDateTime { date: LocalDate { year: t.0, month: t.1, day: t.2 }, hour: t.3, minute: t.4 }
}

pub open spec fn opt_time(o: Option<(i32, u32, u32, u32, u32)>) -> Option<LocalDateTime> {
    match o {
        Some(t) => Some(time_from(t)),
        None => None,
    }
}

/// The largest number of seconds a `chrono::TimeDelta` holds.
pub open spec fn delta_seconds_bound() -> int {
    i64::MAX / 1000
}

/// Calls `chrono::NaiveDateTime::checked_add_signed` with
/// `chrono::TimeDelta::minutes(n)`: the time `n` minutes later, or `None` out
/// of range: the valid time whose minute number is `n` more, while its date
/// stays within `NaiveDate::MIN` and `NaiveDate::MAX`. `TimeDelta::minutes`
/// panics past the bound `requires` states.
#[verifier::external_body]
pub(crate) fn add_minutes(t: LocalDateTime, n: i64) -> (r: Option<LocalDateTime>)
    requires
        valid_time(t),
        -delta_seconds_bound() <= n * 60 <= delta_seconds_bound(),
    ensures
        r == opt_time(minutes_later(t.date.year, t.date.month, t.date.day, t.hour, t.minute, n)),
        r is Some <==> first_day_number() * 1440 <= minute_number(t) + n <= last_day_number() * 1440 + 1439,
        r matches Some(x) ==> minute_number(x) == minute_number(t) + n,
        r matches Some(x) ==> valid_time(x),
{
    let date = chrono::NaiveDate::from_ymd_opt(t.date.year, t.date.month, t.date.day).unwrap();
    let start = date.and_hms_opt(t.hour, t.minute, 0).unwrap();
    match start.checked_add_signed(chrono::TimeDelta::minutes(n)) {
        Some(x) => Some(LocalDateTime {
            date: LocalDate { year: x.year(), month: x.month(), day: x.day() },
            hour: x.hour(),
            minute: x.minute(),
        }),
        None => None,
    }
}

/// The same month with another day, when that day exists in it.
pub open spec fn with_day_spec(d: LocalDate, day: u32) -> Option<LocalDate> {
    if calendar_date(d.year as int, d.month as int, day as int) {
        Some(LocalDate { day, ..d })
    } else {
        None
    }
}

/// The same month with another day, when that day exists in it.
pub fn with_day(d: LocalDate, day: u32) -> (r: Option<LocalDate>)
    ensures
        r == with_day_spec(d, day),
{
    if date_exists(d.year, d.month, day) {
        Some(LocalDate { day, ..d })
    } else {
        None
    }
}

} // verus!
