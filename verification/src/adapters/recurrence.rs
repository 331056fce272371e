//! Repeat rules to and from the working copy the repeat editor shows.
//!
//! The domain carries more periods than the editor advertises, so every
//! variant is mapped rather than folded into a default: a rule written by
//! another client has to survive being opened and saved here.

use vstd::prelude::*;
use crate::adapters::datetime::DateTimeParts;
use crate::adapters::datetime_input::{calendar_date, date_exists};
use crate::viewmodels::recurrence::calendar::{LocalDate, weekday_from_sunday, weekday_number};
use crate::viewmodels::recurrence::model::{
    RecurrenceRule, RecurrenceDetails, DayOfWeek, WeekOfMonth as DomainWeekOfMonth,
    RecurrenceUnit as DomainUnit, weekday_index, weekday_of,
};

verus! {

/// How many times a new rule repeats before the count field is used.
pub const DEFAULT_MAX_OCCURRENCES: i32 = 10;

/// How many future dates an endless rule initially shows.
pub const DEFAULT_PREVIEW_COUNT: i32 = 5;

/// The periods the editor offers.
#[derive(Debug, Clone, Copy, PartialEq, Eq, Structural)]
pub enum RecurrenceUnit {
    Minute,
    Hour,
    Day,
    Week,
    Month,
    Quarter,
    HalfYear,
    Year,
}

/// Which occurrence of a weekday in a month the editor shows.
#[derive(Debug, Clone, Copy, PartialEq, Eq, Structural)]
pub enum RecurrenceWeekOfMonth {
    First,
    Second,
    Third,
    Fourth,
    Last,
}

/// How a monthly rule picks its day.
#[derive(Debug, Clone, Copy, PartialEq, Eq, Structural)]
pub enum RecurrenceMonthlyMode {
    SameDay,
    DayOfMonth,
    WeekdayOfMonth,
}

/// How a series ends.
#[derive(Debug, Clone, Copy, PartialEq, Eq, Structural)]
pub enum RecurrenceEnd {
    Never,
    OnDate,
    AfterCount,
}

/// The repeat editor's working copy of a task's rule.
#[derive(Debug, Clone, PartialEq, Eq)]
pub struct RecurrenceState {
    pub task_id: String,
    pub enabled: bool,
    pub unit: RecurrenceUnit,
    pub interval: i32,
    pub sunday: bool,
    pub monday: bool,
    pub tuesday: bool,
    pub wednesday: bool,
    pub thursday: bool,
    pub friday: bool,
    pub saturday: bool,
    pub monthly_mode: RecurrenceMonthlyMode,
    pub day_of_month: i32,
    pub week_of_month: RecurrenceWeekOfMonth,
    pub weekday_of_month: i32,
    pub end_kind: RecurrenceEnd,
    pub end_year: i32,
    pub end_month: i32,
    pub end_day: i32,
    pub max_occurrences: i32,
    pub preview_count: i32,
}

pub open spec fn unit_shown(unit: DomainUnit) -> RecurrenceUnit {
    match unit {
        DomainUnit::Minute => RecurrenceUnit::Minute,
        DomainUnit::Hour => RecurrenceUnit::Hour,
        DomainUnit::Day => RecurrenceUnit::Day,
        DomainUnit::Week => RecurrenceUnit::Week,
        DomainUnit::Month => RecurrenceUnit::Month,
        DomainUnit::Quarter => RecurrenceUnit::Quarter,
        DomainUnit::HalfYear => RecurrenceUnit::HalfYear,
        DomainUnit::Year => RecurrenceUnit::Year,
    }
}

pub open spec fn unit_stored(unit: RecurrenceUnit) -> DomainUnit {
    match unit {
        RecurrenceUnit::Minute => DomainUnit::Minute,
        RecurrenceUnit::Hour => DomainUnit::Hour,
        RecurrenceUnit::Day => DomainUnit::Day,
        RecurrenceUnit::Week => DomainUnit::Week,
        RecurrenceUnit::Month => DomainUnit::Month,
        RecurrenceUnit::Quarter => DomainUnit::Quarter,
        RecurrenceUnit::HalfYear => DomainUnit::HalfYear,
        RecurrenceUnit::Year => DomainUnit::Year,
    }
}

/// Maps a stored period to the editor's.
pub fn to_unit(unit: &DomainUnit) -> (r: RecurrenceUnit)
    ensures
        r == unit_shown(*unit),
{
    match unit {
        DomainUnit::Minute => RecurrenceUnit::Minute,
        DomainUnit::Hour => RecurrenceUnit::Hour,
        DomainUnit::Day => RecurrenceUnit::Day,
        DomainUnit::Week => RecurrenceUnit::Week,
        DomainUnit::Month => RecurrenceUnit::Month,
        DomainUnit::Quarter => RecurrenceUnit::Quarter,
        DomainUnit::HalfYear => RecurrenceUnit::HalfYear,
        DomainUnit::Year => RecurrenceUnit::Year,
    }
}

/// Maps a period chosen in the editor back to the stored one.
pub fn from_unit(unit: RecurrenceUnit) -> (r: DomainUnit)
    ensures
        r == unit_stored(unit),
{
    match unit {
        RecurrenceUnit::Minute => DomainUnit::Minute,
        RecurrenceUnit::Hour => DomainUnit::Hour,
        RecurrenceUnit::Day => DomainUnit::Day,
        RecurrenceUnit::Week => DomainUnit::Week,
        RecurrenceUnit::Month => DomainUnit::Month,
        RecurrenceUnit::Quarter => DomainUnit::Quarter,
        RecurrenceUnit::HalfYear => DomainUnit::HalfYear,
        RecurrenceUnit::Year => DomainUnit::Year,
    }
}

/// Every period survives the trip to the editor and back, both ways.
pub proof fn law_units_round_trip(stored: DomainUnit, shown: RecurrenceUnit)
    ensures
        unit_stored(unit_shown(stored)) == stored,
        unit_shown(unit_stored(shown)) == shown,
{
}

pub open spec fn week_shown(week: DomainWeekOfMonth) -> RecurrenceWeekOfMonth {
    match week {
        DomainWeekOfMonth::First => RecurrenceWeekOfMonth::First,
        DomainWeekOfMonth::Second => RecurrenceWeekOfMonth::Second,
        DomainWeekOfMonth::Third => RecurrenceWeekOfMonth::Third,
        DomainWeekOfMonth::Fourth => RecurrenceWeekOfMonth::Fourth,
        DomainWeekOfMonth::Last => RecurrenceWeekOfMonth::Last,
    }
}

pub open spec fn week_stored(week: RecurrenceWeekOfMonth) -> DomainWeekOfMonth {
    match week {
        RecurrenceWeekOfMonth::First => DomainWeekOfMonth::First,
        RecurrenceWeekOfMonth::Second => DomainWeekOfMonth::Second,
        RecurrenceWeekOfMonth::Third => DomainWeekOfMonth::Third,
        RecurrenceWeekOfMonth::Fourth => DomainWeekOfMonth::Fourth,
        RecurrenceWeekOfMonth::Last => DomainWeekOfMonth::Last,
    }
}

pub fn to_week_of_month(week: &DomainWeekOfMonth) -> (r: RecurrenceWeekOfMonth)
    ensures
        r == week_shown(*week),
{
    match week {
        DomainWeekOfMonth::First => RecurrenceWeekOfMonth::First,
        DomainWeekOfMonth::Second => RecurrenceWeekOfMonth::Second,
        DomainWeekOfMonth::Third => RecurrenceWeekOfMonth::Third,
        DomainWeekOfMonth::Fourth => RecurrenceWeekOfMonth::Fourth,
        DomainWeekOfMonth::Last => RecurrenceWeekOfMonth::Last,
    }
}

pub fn from_week_of_month(week: RecurrenceWeekOfMonth) -> (r: DomainWeekOfMonth)
    ensures
        r == week_stored(week),
{
    match week {
        RecurrenceWeekOfMonth::First => DomainWeekOfMonth::First,
        RecurrenceWeekOfMonth::Second => DomainWeekOfMonth::Second,
        RecurrenceWeekOfMonth::Third => DomainWeekOfMonth::Third,
        RecurrenceWeekOfMonth::Fourth => DomainWeekOfMonth::Fourth,
        RecurrenceWeekOfMonth::Last => DomainWeekOfMonth::Last,
    }
}

/// Weekday as the zero-based index the editor counts with, Sunday first.
pub fn to_weekday_index(day: &DayOfWeek) -> (r: i32)
    ensures
        r == weekday_index(*day),
{
    weekday_of(day) as i32
}

/// The weekday an index stands for, taken modulo a week.
pub open spec fn weekday_at(index: int) -> DayOfWeek {
    let i = index % 7;
    if i == 1 {
        DayOfWeek::Monday
    } else if i == 2 {
        DayOfWeek::Tuesday
    } else if i == 3 {
        DayOfWeek::Wednesday
    } else if i == 4 {
        DayOfWeek::Thursday
    } else if i == 5 {
        DayOfWeek::Friday
    } else if i == 6 {
        DayOfWeek::Saturday
    } else {
        DayOfWeek::Sunday
    }
}

/// The weekday an index stands for, taken modulo a week: anything outside
/// 0 to 6 wraps round.
pub fn from_weekday_index(index: i32) -> (r: DayOfWeek)
    ensures
        r == weekday_at(index as int),
        weekday_index(r) == (index as int) % 7,
{
    let i = index % 7;
    let i = if i < 0 { i + 7 } else { i };
    assert(i == (index as int) % 7);
    if i == 1 {
        DayOfWeek::Monday
    } else if i == 2 {
        DayOfWeek::Tuesday
    } else if i == 3 {
        DayOfWeek::Wednesday
    } else if i == 4 {
        DayOfWeek::Thursday
    } else if i == 5 {
        DayOfWeek::Friday
    } else if i == 6 {
        DayOfWeek::Saturday
    } else {
        DayOfWeek::Sunday
    }
}

/// An index read back as a weekday gives the index again, once it is taken
/// modulo a week; a weekday gives itself back.
pub proof fn law_weekday_index_round_trip(day: DayOfWeek, index: int)
    ensures
        weekday_at(weekday_index(day) as int) == day,
        weekday_index(weekday_at(index)) == index % 7,
{
}

/// How a rule's details pick the day of a monthly rule.
pub open spec fn mode_of(details: Option<RecurrenceDetails>) -> RecurrenceMonthlyMode {
    match details {
        Some(d) => if d.specific_date is Some {
            RecurrenceMonthlyMode::DayOfMonth
        } else if d.week_of_period is Some && d.weekday_of_week is Some {
            RecurrenceMonthlyMode::WeekdayOfMonth
        } else {
            RecurrenceMonthlyMode::SameDay
        },
        None => RecurrenceMonthlyMode::SameDay,
    }
}

fn monthly_mode(details: Option<&RecurrenceDetails>) -> (r: RecurrenceMonthlyMode)
    ensures
        r == mode_of(match details { Some(d) => Some(*d), None => None }),
{
    match details {
        Some(d) => if d.specific_date.is_some() {
            RecurrenceMonthlyMode::DayOfMonth
        } else if d.week_of_period.is_some() && d.weekday_of_week.is_some() {
            RecurrenceMonthlyMode::WeekdayOfMonth
        } else {
            RecurrenceMonthlyMode::SameDay
        },
        None => RecurrenceMonthlyMode::SameDay,
    }
}

/// How the editor shows a series ending: a rule with both an end date and a
/// count shows the date, the more visible of the two.
pub open spec fn end_of(rule: Option<RecurrenceRule>) -> RecurrenceEnd {
    match rule {
        Some(r) => if r.end_date is Some {
            RecurrenceEnd::OnDate
        } else if r.max_occurrences is Some {
            RecurrenceEnd::AfterCount
        } else {
            RecurrenceEnd::Never
        },
        None => RecurrenceEnd::Never,
    }
}

fn end_kind(rule: Option<&RecurrenceRule>) -> (r: RecurrenceEnd)
    ensures
        r == end_of(match rule { Some(x) => Some(*x), None => None }),
{
    match rule {
        Some(r) => if r.end_date.is_some() {
            RecurrenceEnd::OnDate
        } else if r.max_occurrences.is_some() {
            RecurrenceEnd::AfterCount
        } else {
            RecurrenceEnd::Never
        },
        None => RecurrenceEnd::Never,
    }
}

/// The weekday of the calendar fields, counted from Sunday, or 0 when they
/// name no date.
pub open spec fn weekday_of_parts(parts: DateTimeParts) -> int {
    let m = parts.month as u32;
    let d = parts.day as u32;
    if calendar_date(parts.year as int, m as int, d as int) {
        weekday_number(parts.year, m, d) as int
    } else {
        0
    }
}

fn weekday_index_of(parts: DateTimeParts) -> (r: i32)
    ensures
        r == weekday_of_parts(parts),
{
    let m = parts.month as u32;
    let d = parts.day as u32;
    if date_exists(parts.year, m, d) {
        weekday_from_sunday(LocalDate { year: parts.year, month: m, day: d }) as i32
    } else {
        0
    }
}

/// Whether `days` names the weekday counted `w` from Sunday.
pub open spec fn names(days: Option<Vec<DayOfWeek>>, w: u32) -> bool {
    match days {
        Some(v) => names_in(v@, w),
        None => false,
    }
}

pub open spec fn names_in(days: Seq<DayOfWeek>, w: u32) -> bool {
    exists|i: int| 0 <= i < days.len() && weekday_index(#[trigger] days[i]) == w
}

fn named(days: Option<&Vec<DayOfWeek>>, w: u32) -> (r: bool)
    ensures
        r == names(match days { Some(v) => Some(*v), None => None }, w),
{
    match days {
        Some(v) => {
            let mut i: usize = 0;
            while i < v.len()
                invariant
                    days == Some(v),
                    i <= v@.len(),
                    forall|j: int| 0 <= j < i ==> weekday_index(#[trigger] v@[j]) != w,
                decreases v@.len() - i,
            {
                if weekday_of(&v[i]) == w {
                    assert(weekday_index(v@[i as int]) == w);
                    assert(names_in(v@, w));
                    return true;
                }
                i = i + 1;
            }
            false
        },
        None => false,
    }
}

pub open spec fn clamped(x: int, lo: int, hi: int) -> int {
    if x < lo {
        lo
    } else if x > hi {
        hi
    } else {
        x
    }
}

/// The editor's working copy of a task's rule. A task without a rule still
/// gets a usable draft, filled in from `anchor`: the task's due date, or
/// now, on the display calendar. `end` is the rule's end date on the display
/// calendar, when it has one.
pub fn to_recurrence_state(
    task_id: &str,
    rule: Option<&RecurrenceRule>,
    anchor: DateTimeParts,
    end: Option<DateTimeParts>,
) -> (r: RecurrenceState)
    ensures
        r.task_id@ == task_id@,
        r.enabled == rule is Some,
        r.unit == match rule {
            Some(x) => unit_shown(x.unit),
            None => RecurrenceUnit::Day,
        },
        r.interval == match rule {
            Some(x) => if x.interval < 1 { 1 } else { x.interval },
            None => 1,
        },
        r.sunday == names(match rule { Some(x) => x.days_of_week, None => None }, 0),
        r.monday == names(match rule { Some(x) => x.days_of_week, None => None }, 1),
        r.tuesday == names(match rule { Some(x) => x.days_of_week, None => None }, 2),
        r.wednesday == names(match rule { Some(x) => x.days_of_week, None => None }, 3),
        r.thursday == names(match rule { Some(x) => x.days_of_week, None => None }, 4),
        r.friday == names(match rule { Some(x) => x.days_of_week, None => None }, 5),
        r.saturday == names(match rule { Some(x) => x.days_of_week, None => None }, 6),
        r.monthly_mode == mode_of(match rule { Some(x) => x.details, None => None }),
        r.day_of_month == clamped(
            match rule {
                Some(x) => match x.details {
                    Some(d) => match d.specific_date {
                        Some(n) => n as int,
                        None => anchor.day as int,
                    },
                    None => anchor.day as int,
                },
                None => anchor.day as int,
            },
            1,
            31,
        ),
        r.week_of_month == match rule {
            Some(x) => match x.details {
                Some(d) => match d.week_of_period {
                    Some(w) => week_shown(w),
                    None => RecurrenceWeekOfMonth::First,
                },
                None => RecurrenceWeekOfMonth::First,
            },
            None => RecurrenceWeekOfMonth::First,
        },
        r.weekday_of_month == match rule {
            Some(x) => match x.details {
                Some(d) => match d.weekday_of_week {
                    Some(w) => weekday_index(w) as int,
                    None => weekday_of_parts(anchor),
                },
                None => weekday_of_parts(anchor),
            },
            None => weekday_of_parts(anchor),
        },
        r.end_kind == end_of(match rule { Some(x) => Some(*x), None => None }),
        (r.end_year, r.end_month, r.end_day) == match end {
            Some(e) => (e.year, e.month, e.day),
            None => (anchor.year, anchor.month, anchor.day),
        },
        r.max_occurrences == match rule {
            Some(x) => match x.max_occurrences {
                Some(n) => if n < 1 { 1 } else { n },
                None => DEFAULT_MAX_OCCURRENCES,
            },
            None => DEFAULT_MAX_OCCURRENCES,
        },
        r.preview_count == DEFAULT_PREVIEW_COUNT,
{
    let details = match rule {
        Some(x) => match &x.details {
            Some(d) => Some(d),
            None => None,
        },
        None => None,
    };
    let days = match rule {
        Some(x) => match &x.days_of_week {
            Some(v) => Some(v),
            None => None,
        },
        None => None,
    };
    let end_parts = match end {
        Some(e) => e,
        None => anchor,
    };
    let day_source: i32 = match details {
        Some(d) => match d.specific_date {
            Some(n) => n,
            None => anchor.day,
        },
        None => anchor.day,
    };
    let day_of_month = if day_source < 1 { 1 } else if day_source > 31 { 31 } else { day_source };
    let week_of_month = match details {
        Some(d) => match &d.week_of_period {
            Some(w) => to_week_of_month(w),
            None => RecurrenceWeekOfMonth::First,
        },
        None => RecurrenceWeekOfMonth::First,
    };
    let weekday_of_month = match details {
        Some(d) => match &d.weekday_of_week {
            Some(w) => to_weekday_index(w),
            None => weekday_index_of(anchor),
        },
        None => weekday_index_of(anchor),
    };
    let max_source = match rule {
        Some(x) => match x.max_occurrences {
            Some(n) => n,
            None => DEFAULT_MAX_OCCURRENCES,
        },
        None => DEFAULT_MAX_OCCURRENCES,
    };
    RecurrenceState {
        task_id: task_id.to_owned(),
        enabled: rule.is_some(),
        unit: match rule {
            Some(x) => to_unit(&x.unit),
            None => RecurrenceUnit::Day,
        },
        interval: match rule {
            Some(x) => if x.interval < 1 { 1 } else { x.interval },
            None => 1,
        },
        sunday: named(days, 0),
        monday: named(days, 1),
        tuesday: named(days, 2),
        wednesday: named(days, 3),
        thursday: named(days, 4),
        friday: named(days, 5),
        saturday: named(days, 6),
        monthly_mode: monthly_mode(details),
        day_of_month,
        week_of_month,
        weekday_of_month,
        end_kind: end_kind(rule),
        end_year: end_parts.year,
        end_month: end_parts.month,
        end_day: end_parts.day,
        max_occurrences: if max_source < 1 { 1 } else { max_source },
        preview_count: DEFAULT_PREVIEW_COUNT,
    }
}

} // verus!
