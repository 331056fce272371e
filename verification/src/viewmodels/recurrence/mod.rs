//! Repeat schedules: what the repeat editor writes, and the dates a rule
//! fires on.
//!
//! The editor covers the patterns it can draw (period, interval, weekdays,
//! day of the month, and how the series ends), while the business-day
//! corrections and date conditions a rule may carry are kept untouched rather
//! than dropped, since nothing in the editor can rebuild them.

pub mod calendar;
pub mod model;
pub mod occurrence;

use vstd::prelude::*;
use crate::adapters::datetime::DateTimeParts;
use crate::adapters::recurrence::{
    RecurrenceState, RecurrenceUnit, RecurrenceMonthlyMode, RecurrenceEnd, unit_stored, week_stored,
    weekday_at, clamped, from_unit, from_week_of_month, from_weekday_index,
};
use crate::viewmodels::recurrence::model::{
    RecurrenceRule, RecurrenceDetails, RecurrenceAdjustment, DateCondition, WeekdayCondition, DayOfWeek,
    WeekOfMonth, RecurrenceUnit as DomainUnit,
};

verus! {

/// The largest interval the editor accepts.
pub const MAX_INTERVAL: i32 = 999;

/// Whether the period is long enough to pick a day inside it.
pub open spec fn months_long(unit: DomainUnit) -> bool {
    unit == DomainUnit::Month || unit == DomainUnit::Quarter || unit == DomainUnit::HalfYear || unit
        == DomainUnit::Year
}

/// Whether the period is long enough to pick a day inside it.
pub fn is_period_of_months(unit: &DomainUnit) -> (r: bool)
    ensures
        r == months_long(*unit),
{
    match unit {
        DomainUnit::Month | DomainUnit::Quarter | DomainUnit::HalfYear | DomainUnit::Year => true,
        _ => false,
    }
}

/// The editor's weekday ticks, Sunday first.
pub open spec fn ticks(state: RecurrenceState) -> Seq<bool> {
    seq![state.sunday, state.monday, state.tuesday, state.wednesday, state.thursday, state.friday, state.saturday]
}

/// The ticked weekdays among the first `n`, Sunday first.
pub open spec fn ticked(state: RecurrenceState, n: int) -> Seq<DayOfWeek>
    decreases n,
{
    if n <= 0 {
        Seq::empty()
    } else if ticks(state)[n - 1] {
        ticked(state, n - 1).push(weekday_at(n - 1))
    } else {
        ticked(state, n - 1)
    }
}

/// The weekdays a weekly rule fires on, or `None` when the period is not a
/// week or no weekday is ticked, in which case the rule follows its anchor's
/// day.
pub open spec fn chosen_weekdays(state: RecurrenceState) -> Option<Seq<DayOfWeek>> {
    if state.unit != RecurrenceUnit::Week || ticked(state, 7).len() == 0 {
        None
    } else {
        Some(ticked(state, 7))
    }
}

pub open spec fn days_view(o: Option<Vec<DayOfWeek>>) -> Option<Seq<DayOfWeek>> {
    match o {
        Some(v) => Some(v@),
        None => None,
    }
}

fn selected_weekdays(state: &RecurrenceState) -> (r: Option<Vec<DayOfWeek>>)
    ensures
        days_view(r) == chosen_weekdays(*state),
{
    if state.unit != RecurrenceUnit::Week {
        return None;
    }
    let flags = [state.sunday, state.monday, state.tuesday, state.wednesday, state.thursday, state.friday, state.saturday];
    assert(flags@ =~= ticks(*state));
    let mut days: Vec<DayOfWeek> = Vec::new();
    let mut i: usize = 0;
    while i < 7
        invariant
            i <= 7,
            flags@ == ticks(*state),
            days@ == ticked(*state, i as int),
        decreases 7 - i,
    {
        if flags[i] {
            days.push(from_weekday_index(i as i32));
        }
        i = i + 1;
    }
    if days.len() == 0 {
        None
    } else {
        Some(days)
    }
}

/// The day-of-period pattern the editor describes: a day of the month, or a
/// weekday of a week of the month, for periods of months only.
pub open spec fn day_pattern(state: RecurrenceState) -> (Option<i32>, Option<WeekOfMonth>, Option<DayOfWeek>) {
    if !months_long(unit_stored(state.unit)) {
        (None, None, None)
    } else {
        match state.monthly_mode {
            RecurrenceMonthlyMode::DayOfMonth => (Some(clamped(state.day_of_month as int, 1, 31) as i32), None, None),
            RecurrenceMonthlyMode::WeekdayOfMonth => (
                None,
                Some(week_stored(state.week_of_month)),
                Some(weekday_at(state.weekday_of_month as int)),
            ),
            RecurrenceMonthlyMode::SameDay => (None, None, None),
        }
    }
}

pub open spec fn conditions_view(o: Option<Vec<DateCondition>>) -> Option<Seq<DateCondition>> {
    match o {
        Some(v) => Some(v@),
        None => None,
    }
}

/// The date conditions an existing rule carries in its details.
pub open spec fn kept_conditions(existing: Option<RecurrenceRule>) -> Option<Seq<DateCondition>> {
    match existing {
        Some(rule) => match rule.details {
            Some(d) => conditions_view(d.date_conditions),
            None => None,
        },
        None => None,
    }
}

/// Whether `details` is what the editor writes: the day pattern, the date
/// conditions kept from the rule being edited, and the time stamps.
pub open spec fn details_written(
    details: Option<RecurrenceDetails>,
    state: RecurrenceState,
    existing: Option<RecurrenceRule>,
    user_id: Seq<char>,
    now: i128,
) -> bool {
    let pattern = day_pattern(state);
    let kept = kept_conditions(existing);
    let previous = match existing {
        Some(rule) => rule.details,
        None => None,
    };
    match details {
        None => pattern.0 is None && pattern.1 is None && kept is None,
        Some(d) => {
            &&& !(pattern.0 is None && pattern.1 is None && kept is None)
            &&& (d.specific_date, d.week_of_period, d.weekday_of_week) == pattern
            &&& conditions_view(d.date_conditions) == kept
            &&& d.created_at == match previous {
                Some(p) => p.created_at,
                None => now,
            }
            &&& d.updated_at == now
            &&& !d.deleted
            &&& d.updated_by@ == user_id
        },
    }
}

fn copy_conditions(v: &Vec<DateCondition>) -> (r: Vec<DateCondition>)
    ensures
        r@ == v@,
{
    let mut out: Vec<DateCondition> = Vec::new();
    let mut i: usize = 0;
    while i < v.len()
        invariant
            i <= v@.len(),
            out@ == v@.take(i as int),
        decreases v@.len() - i,
    {
        out.push(v[i]);
        assert(out@ =~= v@.take(i + 1));
        i = i + 1;
    }
    assert(v@.take(v@.len() as int) =~= v@);
    out
}

fn copy_weekday_conditions(v: &Vec<WeekdayCondition>) -> (r: Vec<WeekdayCondition>)
    ensures
        r@ == v@,
{
    let mut out: Vec<WeekdayCondition> = Vec::new();
    let mut i: usize = 0;
    while i < v.len()
        invariant
            i <= v@.len(),
            out@ == v@.take(i as int),
        decreases v@.len() - i,
    {
        out.push(v[i]);
        assert(out@ =~= v@.take(i + 1));
        i = i + 1;
    }
    assert(v@.take(v@.len() as int) =~= v@);
    out
}

fn details(state: &RecurrenceState, existing: Option<&RecurrenceRule>, user_id: &str, now: i128) -> (r: Option<
    RecurrenceDetails,
>)
    ensures
        details_written(r, *state, match existing { Some(x) => Some(*x), None => None }, user_id@, now),
{
    let previous = match existing {
        Some(rule) => match &rule.details {
            Some(d) => Some(d),
            None => None,
        },
        None => None,
    };
    let date_conditions = match previous {
        Some(d) => match &d.date_conditions {
            Some(v) => Some(copy_conditions(v)),
            None => None,
        },
        None => None,
    };
    let (specific_date, week_of_period, weekday_of_week) = if !is_period_of_months(&from_unit(state.unit)) {
        (None, None, None)
    } else {
        match state.monthly_mode {
            RecurrenceMonthlyMode::DayOfMonth => {
                let day = if state.day_of_month < 1 {
                    1
                } else if state.day_of_month > 31 {
                    31
                } else {
                    state.day_of_month
                };
                (Some(day), None, None)
            },
            RecurrenceMonthlyMode::WeekdayOfMonth => (
                None,
                Some(from_week_of_month(state.week_of_month)),
                Some(from_weekday_index(state.weekday_of_month)),
            ),
            RecurrenceMonthlyMode::SameDay => (None, None, None),
        }
    };
    if specific_date.is_none() && week_of_period.is_none() && date_conditions.is_none() {
        return None;
    }
    Some(RecurrenceDetails {
        specific_date,
        week_of_period,
        weekday_of_week,
        date_conditions,
        created_at: match previous {
            Some(p) => p.created_at,
            None => now,
        },
        updated_at: now,
        deleted: false,
        updated_by: user_id.to_owned(),
    })
}

pub open spec fn adjustment_view(o: Option<RecurrenceAdjustment>) -> Option<(Seq<DateCondition>, Seq<WeekdayCondition>)> {
    match o {
        Some(a) => Some((a.date_conditions@, a.weekday_conditions@)),
        None => None,
    }
}

/// The calendar fields where a series that ends on a date stops: the last
/// minute of the chosen day, so the day counts in full.
pub fn end_parts(state: &RecurrenceState) -> (r: DateTimeParts)
    ensures
        r == (DateTimeParts { year: state.end_year, month: state.end_month, day: state.end_day, hour: 23, minute: 59 }),
{
    DateTimeParts { year: state.end_year, month: state.end_month, day: state.end_day, hour: 23, minute: 59 }
}

/// The rule the editor's working copy describes, or `None` when the task
/// should not repeat. `existing` is the rule being edited: its id, its
/// creation time, its corrections and its date conditions survive the save.
/// `end_date` is the instant `end_parts` names on the display calendar,
/// `new_id` the id a new rule gets, and `now` the time of the save.
pub fn rule_from_state(
    state: &RecurrenceState,
    existing: Option<&RecurrenceRule>,
    end_date: Option<i128>,
    user_id: &str,
    now: i128,
    new_id: &str,
) -> (r: Option<RecurrenceRule>)
    ensures
        match r {
            None => !state.enabled,
            Some(rule) => {
                &&& state.enabled
                &&& rule.id@ == match existing {
                    Some(e) => e.id@,
                    None => new_id@,
                }
                &&& rule.unit == unit_stored(state.unit)
                &&& rule.interval == clamped(state.interval as int, 1, MAX_INTERVAL as int)
                &&& days_view(rule.days_of_week) == chosen_weekdays(*state)
                &&& details_written(
                    rule.details,
                    *state,
                    match existing { Some(x) => Some(*x), None => None },
                    user_id@,
                    now,
                )
                &&& adjustment_view(rule.adjustment) == match existing {
                    Some(e) => adjustment_view(e.adjustment),
                    None => None,
                }
                &&& rule.end_date == if state.end_kind == RecurrenceEnd::OnDate {
                    end_date
                } else {
                    None
                }
                &&& rule.max_occurrences == if state.end_kind == RecurrenceEnd::AfterCount {
                    Some(if state.max_occurrences < 1 { 1 } else { state.max_occurrences })
                } else {
                    None
                }
                &&& rule.created_at == match existing {
                    Some(e) => e.created_at,
                    None => now,
                }
                &&& rule.updated_at == now
                &&& !rule.deleted
                &&& rule.updated_by@ == user_id@
            },
        },
{
    if !state.enabled {
        return None;
    }
    let interval = if state.interval < 1 {
        1
    } else if state.interval > MAX_INTERVAL {
        MAX_INTERVAL
    } else {
        state.interval
    };
    let adjustment = match existing {
        Some(e) => match &e.adjustment {
            Some(a) => Some(RecurrenceAdjustment {
                date_conditions: copy_conditions(&a.date_conditions),
                weekday_conditions: copy_weekday_conditions(&a.weekday_conditions),
            }),
            None => None,
        },
        None => None,
    };
    Some(RecurrenceRule {
        id: match existing {
            Some(e) => e.id.clone(),
            None => new_id.to_owned(),
        },
        unit: from_unit(state.unit),
        interval,
        days_of_week: selected_weekdays(state),
        details: details(state, existing, user_id, now),
        adjustment,
        end_date: match state.end_kind {
            RecurrenceEnd::OnDate => end_date,
            _ => None,
        },
        max_occurrences: match state.end_kind {
            RecurrenceEnd::AfterCount => Some(if state.max_occurrences < 1 { 1 } else { state.max_occurrences }),
            _ => None,
        },
        created_at: match existing {
            Some(e) => e.created_at,
            None => now,
        },
        updated_at: now,
        deleted: false,
        updated_by: user_id.to_owned(),
    })
}

} // verus!
