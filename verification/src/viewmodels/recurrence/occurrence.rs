//! Expanding a repeat rule into the dates it fires on.
//!
//! Everything is computed on the calendar the user sees: callers move the
//! anchor, the end and the condition dates into the display time zone, and
//! move the results back. Stepping in UTC would drift an "every day at 09:00"
//! rule by an hour across a daylight-saving boundary.

use vstd::prelude::*;
use crate::viewmodels::recurrence::calendar::{
    LocalDate, LocalDateTime, valid_date, valid_time, earlier, is_earlier, opt_date, opt_time,
    days_later, days_earlier, weekday_number, minutes_later, months_added, with_day_spec,
    delta_seconds_bound, add_days, sub_days, weekday_from_sunday, add_months, add_minutes, with_day,
};
use crate::viewmodels::recurrence::model::{
    RecurrenceRule, RecurrenceUnit, DayOfWeek, WeekOfMonth, DateRelation, AdjustmentDirection,
    AdjustmentTarget, WeekdayCondition, DateCondition, weekday_index, weekday_of,
};

verus! {

/// How many periods are examined before giving up: a rule can describe a
/// date that never comes round, and the preview must still return.
pub const MAX_PERIODS: usize = 500;

/// How far a weekday correction looks for a day that fits.
pub const ADJUSTMENT_SPAN: u64 = 14;

/// The date at the time of day of `t`.
pub open spec fn at_time(d: LocalDate, t: LocalDateTime) -> LocalDateTime {
    LocalDateTime { date: d, ..t }
}

pub open spec fn seq_of<A>(o: Option<A>) -> Seq<A> {
    match o {
        Some(x) => seq![x],
        None => Seq::empty(),
    }
}

pub open spec fn later_by(d: LocalDate, n: u64) -> Option<LocalDate> {
    opt_date(days_later(d.year, d.month, d.day, n))
}

pub open spec fn earlier_by(d: LocalDate, n: u64) -> Option<LocalDate> {
    opt_date(days_earlier(d.year, d.month, d.day, n))
}

pub open spec fn weekday(d: LocalDate) -> u32 {
    weekday_number(d.year, d.month, d.day)
}

/// The weekdays a weekly rule names.
pub open spec fn selected_days(rule: RecurrenceRule) -> Seq<DayOfWeek> {
    match rule.days_of_week {
        Some(v) => v@,
        None => Seq::empty(),
    }
}

/// Whether the weekday counted `w` from Sunday is among `days`.
pub open spec fn names_weekday(days: Seq<DayOfWeek>, w: u32) -> bool {
    exists|i: int| 0 <= i < days.len() && weekday_index(#[trigger] days[i]) == w
}

/// The weekdays among `days`, counted from Sunday, each once, in order.
pub open spec fn week_numbers(days: Seq<DayOfWeek>) -> Seq<u32> {
    seq![0u32, 1u32, 2u32, 3u32, 4u32, 5u32, 6u32].filter(named_in(days))
}

pub open spec fn named_in(days: Seq<DayOfWeek>) -> spec_fn(u32) -> bool {
    |w: u32| names_weekday(days, w)
}

/// The days `base + n` for each `n` in `offsets` that exist, at the time of `t`.
pub open spec fn offset_days(base: LocalDate, offsets: Seq<u32>, t: LocalDateTime) -> Seq<LocalDateTime>
    decreases offsets.len(),
{
    if offsets.len() == 0 {
        Seq::empty()
    } else {
        let rest = offset_days(base, offsets.drop_last(), t);
        match later_by(base, offsets.last() as u64) {
            Some(d) => rest.push(at_time(d, t)),
            None => rest,
        }
    }
}

/// A weekly rule fires on the weekdays it names, counted in weeks from
/// Sunday, or on the anchor's own weekday when it names none.
pub open spec fn week_candidates(rule: RecurrenceRule, anchor: LocalDateTime, steps: int) -> Seq<LocalDateTime> {
    let days = selected_days(rule);
    let offset = steps * 7;
    if offset < 0 || offset > u64::MAX {
        Seq::empty()
    } else if days.len() == 0 {
        seq_of(later_by(anchor.date, offset as u64)).map_values(|d: LocalDate| at_time(d, anchor))
    } else {
        match earlier_by(anchor.date, weekday(anchor.date) as u64) {
            Some(start) => match later_by(start, offset as u64) {
                Some(base) => offset_days(base, week_numbers(days), anchor),
                None => Seq::empty(),
            },
            None => Seq::empty(),
        }
    }
}

/// The date `weeks` weeks after `from`, if it is still in the same month.
pub open spec fn in_same_month(from: LocalDate, weeks: u64) -> Option<LocalDate> {
    match later_by(from, (weeks * 7) as u64) {
        Some(d) => if d.month == from.month {
            Some(d)
        } else {
            None
        },
        None => None,
    }
}

/// The last date a whole number of weeks after `d` in the month `month`,
/// looking at most `fuel` weeks on.
pub open spec fn last_in_month(d: LocalDate, month: u32, fuel: nat) -> LocalDate
    decreases fuel,
{
    if fuel == 0 {
        d
    } else {
        match later_by(d, 7) {
            Some(n) => if n.month == month {
                last_in_month(n, month, (fuel - 1) as nat)
            } else {
                d
            },
            None => d,
        }
    }
}

/// The `week`-th weekday `w` of the month that starts on `first`.
pub open spec fn nth_weekday(first: LocalDate, week: WeekOfMonth, w: u32) -> Option<LocalDate> {
    let shift = ((7 + w - weekday(first)) % 7) as u64;
    match later_by(first, shift) {
        Some(earliest) => match week {
            WeekOfMonth::First => Some(earliest),
            WeekOfMonth::Second => in_same_month(earliest, 1),
            WeekOfMonth::Third => in_same_month(earliest, 2),
            WeekOfMonth::Fourth => in_same_month(earliest, 3),
            WeekOfMonth::Last => Some(last_in_month(earliest, earliest.month, 5)),
        },
        None => None,
    }
}

/// The day a rule fires on in the month that starts on `first`.
pub open spec fn month_day(rule: RecurrenceRule, first: LocalDate, anchor: LocalDateTime) -> Option<LocalDate> {
    match rule.details {
        Some(details) => match details.specific_date {
            Some(x) => if x < 0 {
                None
            } else {
                with_day_spec(first, x as u32)
            },
            None => match (details.week_of_period, details.weekday_of_week) {
                (Some(week), Some(w)) => nth_weekday(first, week, weekday_index(w)),
                _ => with_day_spec(first, anchor.date.day),
            },
        },
        None => with_day_spec(first, anchor.date.day),
    }
}

/// A monthly (quarterly, half-yearly, yearly) rule fires once in the period
/// `months` months after the anchor's month, or not at all when that period
/// has no such day: it is skipped rather than clamped.
pub open spec fn month_candidates(rule: RecurrenceRule, anchor: LocalDateTime, months: int) -> Seq<LocalDateTime> {
    if months < 0 || months > u32::MAX {
        Seq::empty()
    } else {
        match months_added(LocalDate { day: 1, ..anchor.date }, months as u32) {
            Some(first) => seq_of(month_day(rule, first, anchor)).map_values(|d: LocalDate| at_time(d, anchor)),
            None => Seq::empty(),
        }
    }
}

fn first_of_month(d: LocalDate) -> (r: LocalDate)
    requires
        valid_date(d),
    ensures
        r == (LocalDate { day: 1, ..d }),
        valid_date(r),
{
    LocalDate { day: 1, ..d }
}

/// Every weekday a rule names, counted from Sunday, each once, in order.
fn named_week_numbers(days: &Vec<DayOfWeek>) -> (r: Vec<u32>)
    ensures
        r@ == week_numbers(days@),
{
    let ghost all = seq![0u32, 1u32, 2u32, 3u32, 4u32, 5u32, 6u32];
    let ghost f = named_in(days@);
    let mut out: Vec<u32> = Vec::new();
    let mut w: u32 = 0;
    while w < 7
        invariant
            w <= 7,
            all == seq![0u32, 1u32, 2u32, 3u32, 4u32, 5u32, 6u32],
            f == named_in(days@),
            out@ == all.take(w as int).filter(f),
        decreases 7 - w,
    {
        let mut named = false;
        let mut i: usize = 0;
        while i < days.len()
            invariant
                i <= days@.len(),
                named == exists|j: int| 0 <= j < i && weekday_index(#[trigger] days@[j]) == w,
            decreases days@.len() - i,
        {
            if weekday_of(&days[i]) == w {
                named = true;
            }
            i = i + 1;
        }
        proof {
            assert(all.take(w + 1).drop_last() =~= all.take(w as int));
            assert(all.take(w + 1).last() == w);
            assert(named == f(w));
            assert(all.take(w + 1).filter(f) == if f(w) {
                all.take(w as int).filter(f).push(w)
            } else {
                all.take(w as int).filter(f)
            }) by {
                reveal(Seq::filter);
            }
        }
        if named {
            out.push(w);
        }
        w = w + 1;
    }
    assert(all.take(7) =~= all);
    out
}

/// The candidates of a weekly rule `steps` weeks after the anchor's week.
fn week_dates(rule: &RecurrenceRule, anchor: LocalDateTime, steps: i64) -> (r: Vec<LocalDateTime>)
    requires
        valid_time(anchor),
        0 <= steps <= i64::MAX / 7,
        selected_days(*rule).len() > 0 ==> anchor.date.year > -262143,
    ensures
        r@ == week_candidates(*rule, anchor, steps as int),
        forall|i: int| 0 <= i < r@.len() ==> valid_time(#[trigger] r@[i]),
{
    let offset = (steps * 7) as u64;
    let empty = match &rule.days_of_week {
        Some(v) => v.len() == 0,
        None => true,
    };
    if empty {
        let mut out: Vec<LocalDateTime> = Vec::new();
        match add_days(anchor.date, offset) {
            Some(d) => out.push(LocalDateTime { date: d, ..anchor }),
            None => {},
        }
        proof {
            assert(out@ =~= week_candidates(*rule, anchor, steps as int));
        }
        return out;
    }
    let days = match &rule.days_of_week {
        Some(v) => v,
        None => return Vec::new(),
    };
    let w = weekday_from_sunday(anchor.date);
    let start = match sub_days(anchor.date, w as u64) {
        Some(s) => s,
        None => return Vec::new(),
    };
    let base = match add_days(start, offset) {
        Some(b) => b,
        None => return Vec::new(),
    };
    let numbers = named_week_numbers(days);
    let mut out: Vec<LocalDateTime> = Vec::new();
    let mut i: usize = 0;
    while i < numbers.len()
        invariant
            valid_date(base),
            valid_time(anchor),
            i <= numbers@.len(),
            out@ == offset_days(base, numbers@.take(i as int), anchor),
            forall|j: int| 0 <= j < out@.len() ==> valid_time(#[trigger] out@[j]),
        decreases numbers@.len() - i,
    {
        proof {
            assert(numbers@.take(i + 1).drop_last() =~= numbers@.take(i as int));
        }
        match add_days(base, numbers[i] as u64) {
            Some(d) => out.push(LocalDateTime { date: d, ..anchor }),
            None => {},
        }
        i = i + 1;
    }
    assert(numbers@.take(numbers@.len() as int) =~= numbers@);
    out
}

fn in_month(from: LocalDate, weeks: u64) -> (r: Option<LocalDate>)
    requires
        valid_date(from),
        weeks <= 3,
    ensures
        r == in_same_month(from, weeks),
        r matches Some(x) ==> valid_date(x),
{
    match add_days(from, weeks * 7) {
        Some(d) => if d.month == from.month {
            Some(d)
        } else {
            None
        },
        None => None,
    }
}

/// The `week`-th weekday `w` of the month that starts on `first`.
fn nth_weekday_of(first: LocalDate, week: WeekOfMonth, w: u32) -> (r: Option<LocalDate>)
    requires
        valid_date(first),
        w < 7,
    ensures
        r == nth_weekday(first, week, w),
        r matches Some(x) ==> valid_date(x),
{
    let fw = weekday_from_sunday(first);
    let shift = (7 + w - fw) % 7;
    let earliest = match add_days(first, shift as u64) {
        Some(e) => e,
        None => return None,
    };
    match week {
        WeekOfMonth::First => Some(earliest),
        WeekOfMonth::Second => in_month(earliest, 1),
        WeekOfMonth::Third => in_month(earliest, 2),
        WeekOfMonth::Fourth => in_month(earliest, 3),
        WeekOfMonth::Last => {
            let mut last = earliest;
            let mut k: u32 = 0;
            loop
                invariant
                    valid_date(last),
                    k <= 4,
                    last.month == earliest.month,
                    last.day == earliest.day + 7 * k,
                    earliest.day >= 1,
                    last_in_month(earliest, earliest.month, 5) == last_in_month(last, earliest.month, (5 - k) as nat),
                ensures
                    last_in_month(earliest, earliest.month, 5) == last,
                    valid_date(last),
                decreases 4 - k,
            {
                match add_days(last, 7) {
                    Some(next) => {
                        if next.month != earliest.month {
                            break;
                        }
                        assert(next.day == last.day + 7);
                        assert(next.day <= 31);
                        last = next;
                        k = k + 1;
                    },
                    None => {
                        break;
                    },
                }
            }
            Some(last)
        },
    }
}

/// The day a rule fires on in the month that starts on `first`.
fn day_in_month(rule: &RecurrenceRule, first: LocalDate, anchor: LocalDateTime) -> (r: Option<LocalDate>)
    requires
        valid_date(first),
    ensures
        r == month_day(*rule, first, anchor),
        r matches Some(x) ==> valid_date(x),
{
    match &rule.details {
        Some(details) => match details.specific_date {
            Some(x) => if x < 0 {
                None
            } else {
                with_day(first, x as u32)
            },
            None => match (details.week_of_period, details.weekday_of_week) {
                (Some(week), Some(w)) => nth_weekday_of(first, week, weekday_of(&w)),
                _ => with_day(first, anchor.date.day),
            },
        },
        None => with_day(first, anchor.date.day),
    }
}

/// The candidate of a monthly rule `months` months after the anchor's month.
fn month_dates(rule: &RecurrenceRule, anchor: LocalDateTime, months: i64) -> (r: Vec<LocalDateTime>)
    requires
        valid_time(anchor),
    ensures
        r@ == month_candidates(*rule, anchor, months as int),
        forall|i: int| 0 <= i < r@.len() ==> valid_time(#[trigger] r@[i]),
{
    let mut out: Vec<LocalDateTime> = Vec::new();
    if months < 0 || months > u32::MAX as i64 {
        return out;
    }
    let first = match add_months(first_of_month(anchor.date), months as u32) {
        Some(f) => f,
        None => return out,
    };
    match day_in_month(rule, first, anchor) {
        Some(d) => out.push(LocalDateTime { date: d, ..anchor }),
        None => {},
    }
    assert(out@ =~= month_candidates(*rule, anchor, months as int));
    out
}

/// The interval a rule steps by: at least one period.
pub open spec fn interval_of(rule: RecurrenceRule) -> int {
    if rule.interval < 1 {
        1
    } else {
        rule.interval as int
    }
}

pub open spec fn minutes_on(t: LocalDateTime, n: int) -> Seq<LocalDateTime> {
    seq_of(opt_time(minutes_later(t.date.year, t.date.month, t.date.day, t.hour, t.minute, n as i64)))
}

/// The candidate dates the `period`-th repetition offers, in ascending order.
/// Periods start at zero so that a monthly rule can still fire later in the
/// anchor's own month.
pub open spec fn period_candidates(rule: RecurrenceRule, anchor: LocalDateTime, period: int) -> Seq<LocalDateTime> {
    let steps = interval_of(rule) * period;
    match rule.unit {
        RecurrenceUnit::Minute => minutes_on(anchor, steps),
        RecurrenceUnit::Hour => minutes_on(anchor, steps * 60),
        RecurrenceUnit::Day => minutes_on(anchor, steps * 1440),
        RecurrenceUnit::Week => week_candidates(rule, anchor, steps),
        RecurrenceUnit::Month => month_candidates(rule, anchor, steps),
        RecurrenceUnit::Quarter => month_candidates(rule, anchor, steps * 3),
        RecurrenceUnit::HalfYear => month_candidates(rule, anchor, steps * 6),
        RecurrenceUnit::Year => month_candidates(rule, anchor, steps * 12),
    }
}

/// Whether stepping a daily rule through every period stays within what a
/// `chrono::TimeDelta` holds.
pub open spec fn days_fit(rule: RecurrenceRule) -> bool {
    rule.unit == RecurrenceUnit::Day ==> interval_of(rule) * (MAX_PERIODS - 1) * 1440 * 60 <= delta_seconds_bound()
}

fn minutes_after(t: LocalDateTime, n: i64) -> (r: Vec<LocalDateTime>)
    requires
        valid_time(t),
        -delta_seconds_bound() <= n * 60 <= delta_seconds_bound(),
    ensures
        r@ == minutes_on(t, n as int),
        forall|i: int| 0 <= i < r@.len() ==> valid_time(#[trigger] r@[i]),
{
    let mut out: Vec<LocalDateTime> = Vec::new();
    match add_minutes(t, n) {
        Some(x) => out.push(x),
        None => {},
    }
    assert(out@ =~= minutes_on(t, n as int));
    out
}

/// The candidate dates the `period`-th repetition offers.
fn candidates_of(rule: &RecurrenceRule, anchor: LocalDateTime, period: usize) -> (r: Vec<LocalDateTime>)
    requires
        valid_time(anchor),
        period < MAX_PERIODS,
        days_fit(*rule),
        rule.unit == RecurrenceUnit::Week && selected_days(*rule).len() > 0 ==> anchor.date.year > -262143,
    ensures
        r@ == period_candidates(*rule, anchor, period as int),
        forall|i: int| 0 <= i < r@.len() ==> valid_time(#[trigger] r@[i]),
{
    let interval: i64 = if rule.interval < 1 { 1 } else { rule.interval as i64 };
    assert(interval * period <= 2147483647 * 499) by (nonlinear_arith)
        requires
            interval <= 2147483647,
            period <= 499,
            interval >= 1,
    ;
    let steps: i64 = interval * period as i64;
    match rule.unit {
        RecurrenceUnit::Minute => minutes_after(anchor, steps),
        RecurrenceUnit::Hour => minutes_after(anchor, steps * 60),
        RecurrenceUnit::Day => {
            assert(steps * 1440 * 60 <= delta_seconds_bound()) by (nonlinear_arith)
                requires
                    interval * 499 * 1440 * 60 <= delta_seconds_bound(),
                    steps == interval * period,
                    period <= 499,
                    interval >= 1,
            ;
            minutes_after(anchor, steps * 1440)
        },
        RecurrenceUnit::Week => week_dates(rule, anchor, steps),
        RecurrenceUnit::Month => month_dates(rule, anchor, steps),
        RecurrenceUnit::Quarter => month_dates(rule, anchor, steps * 3),
        RecurrenceUnit::HalfYear => month_dates(rule, anchor, steps * 6),
        RecurrenceUnit::Year => month_dates(rule, anchor, steps * 12),
    }
}

/// What a correction is looking for.
#[derive(Debug, Clone, Copy, PartialEq, Eq, Structural)]
pub enum Wanted {
    /// The weekday counted this many days from Sunday.
    Day(u32),
    Workday,
    Weekend,
}

pub open spec fn is_weekend_day(w: u32) -> bool {
    w == 0 || w == 6
}

/// Whether `d` is what `f` looks for.
pub open spec fn fits(d: LocalDate, f: Wanted) -> bool {
    match f {
        Wanted::Day(t) => weekday(d) == t,
        Wanted::Workday => !is_weekend_day(weekday(d)),
        Wanted::Weekend => is_weekend_day(weekday(d)),
    }
}

pub open spec fn fitting(o: Option<LocalDate>, f: Wanted) -> Option<LocalDate> {
    match o {
        Some(d) => if fits(d, f) {
            Some(d)
        } else {
            None
        },
        None => None,
    }
}

/// The nearest date from `offset` days away on in `direction` that `f`
/// accepts, within `ADJUSTMENT_SPAN` days. `Nearest` looks backwards first,
/// so a date as far from both is moved earlier.
pub open spec fn search_from(d: LocalDate, direction: AdjustmentDirection, f: Wanted, offset: u64) -> Option<LocalDate>
    decreases ADJUSTMENT_SPAN + 1 - offset,
{
    if offset < 1 || offset > ADJUSTMENT_SPAN {
        None
    } else {
        let previous = fitting(earlier_by(d, offset), f);
        let next = fitting(later_by(d, offset), f);
        let here = match direction {
            AdjustmentDirection::Previous => previous,
            AdjustmentDirection::Next => next,
            AdjustmentDirection::Nearest => if previous is Some {
                previous
            } else {
                next
            },
        };
        if here is Some {
            here
        } else {
            search_from(d, direction, f, (offset + 1) as u64)
        }
    }
}

/// Where a weekday correction moves `d`; `None` when it finds nowhere.
pub open spec fn shifted(d: LocalDate, c: WeekdayCondition) -> Option<LocalDate> {
    match c.then_target {
        AdjustmentTarget::Days => {
            let n = (match c.then_days {
                Some(x) => if x < 0 { -x } else { x as int },
                None => 0,
            }) as u64;
            match c.then_direction {
                AdjustmentDirection::Previous => earlier_by(d, n),
                _ => later_by(d, n),
            }
        },
        AdjustmentTarget::SpecificWeekday => match c.then_weekday {
            Some(w) => search_from(d, c.then_direction, Wanted::Day(weekday_index(w)), 1),
            None => None,
        },
        AdjustmentTarget::Weekday | AdjustmentTarget::NonWeekend => search_from(d, c.then_direction, Wanted::Workday, 1),
        AdjustmentTarget::Weekend | AdjustmentTarget::WeekendOnly => search_from(d, c.then_direction, Wanted::Weekend, 1),
        AdjustmentTarget::Holiday => Some(d),
    }
}

/// `d` after the weekday corrections `conds`, applied in order, each to the
/// date the ones before it left.
pub open spec fn corrected(d: LocalDate, conds: Seq<WeekdayCondition>) -> LocalDate
    decreases conds.len(),
{
    if conds.len() == 0 {
        d
    } else {
        let prev = corrected(d, conds.drop_last());
        let c = conds.last();
        if c.deleted || weekday(prev) != weekday_index(c.if_weekday) {
            prev
        } else {
            match shifted(prev, c) {
                Some(x) => x,
                None => prev,
            }
        }
    }
}

/// A candidate after the rule's weekday corrections.
pub open spec fn adjusted(rule: RecurrenceRule, base: LocalDateTime) -> LocalDateTime {
    match rule.adjustment {
        Some(a) => at_time(corrected(base.date, a.weekday_conditions@), base),
        None => base,
    }
}

fn fits_exec(d: LocalDate, f: Wanted) -> (r: bool)
    requires
        valid_date(d),
    ensures
        r == fits(d, f),
{
    let w = weekday_from_sunday(d);
    match f {
        Wanted::Day(t) => w == t,
        Wanted::Workday => !(w == 0 || w == 6),
        Wanted::Weekend => w == 0 || w == 6,
    }
}

fn fitting_exec(o: Option<LocalDate>, f: Wanted) -> (r: Option<LocalDate>)
    requires
        o matches Some(d) ==> valid_date(d),
    ensures
        r == fitting(o, f),
        r matches Some(d) ==> valid_date(d),
{
    match o {
        Some(d) => if fits_exec(d, f) {
            Some(d)
        } else {
            None
        },
        None => None,
    }
}

fn search(d: LocalDate, direction: AdjustmentDirection, f: Wanted) -> (r: Option<LocalDate>)
    requires
        valid_date(d),
    ensures
        r == search_from(d, direction, f, 1),
        r matches Some(x) ==> valid_date(x),
{
    let mut offset: u64 = 1;
    while offset <= ADJUSTMENT_SPAN
        invariant
            1 <= offset <= ADJUSTMENT_SPAN + 1,
            valid_date(d),
            search_from(d, direction, f, offset) == search_from(d, direction, f, 1),
        decreases ADJUSTMENT_SPAN + 1 - offset,
    {
        let here = match direction {
            AdjustmentDirection::Previous => fitting_exec(sub_days(d, offset), f),
            AdjustmentDirection::Next => fitting_exec(add_days(d, offset), f),
            AdjustmentDirection::Nearest => {
                let previous = fitting_exec(sub_days(d, offset), f);
                if previous.is_some() {
                    previous
                } else {
                    fitting_exec(add_days(d, offset), f)
                }
            },
        };
        if here.is_some() {
            return here;
        }
        offset = offset + 1;
    }
    None
}

fn shift(d: LocalDate, c: &WeekdayCondition) -> (r: Option<LocalDate>)
    requires
        valid_date(d),
    ensures
        r == shifted(d, *c),
        r matches Some(x) ==> valid_date(x),
{
    match c.then_target {
        AdjustmentTarget::Days => {
            let n: u64 = match c.then_days {
                Some(x) => if x < 0 { (-(x as i64)) as u64 } else { x as u64 },
                None => 0,
            };
            match c.then_direction {
                AdjustmentDirection::Previous => sub_days(d, n),
                _ => add_days(d, n),
            }
        },
        AdjustmentTarget::SpecificWeekday => match c.then_weekday {
            Some(w) => search(d, c.then_direction, Wanted::Day(weekday_of(&w))),
            None => None,
        },
        AdjustmentTarget::Weekday | AdjustmentTarget::NonWeekend => search(d, c.then_direction, Wanted::Workday),
        AdjustmentTarget::Weekend | AdjustmentTarget::WeekendOnly => search(d, c.then_direction, Wanted::Weekend),
        AdjustmentTarget::Holiday => Some(d),
    }
}

/// A candidate after the rule's weekday corrections.
fn adjust(rule: &RecurrenceRule, base: LocalDateTime) -> (r: LocalDateTime)
    requires
        valid_time(base),
    ensures
        r == adjusted(*rule, base),
        valid_time(r),
{
    let adjustment = match &rule.adjustment {
        Some(a) => a,
        None => return base,
    };
    let conds = &adjustment.weekday_conditions;
    let mut date = base.date;
    let mut i: usize = 0;
    while i < conds.len()
        invariant
            i <= conds@.len(),
            valid_date(date),
            date == corrected(base.date, conds@.take(i as int)),
        decreases conds@.len() - i,
    {
        proof {
            assert(conds@.take(i + 1).drop_last() =~= conds@.take(i as int));
        }
        let c = &conds[i];
        if !c.deleted && weekday_from_sunday(date) == weekday_of(&c.if_weekday) {
            match shift(date, c) {
                Some(x) => {
                    date = x;
                },
                None => {},
            }
        }
        i = i + 1;
    }
    assert(conds@.take(conds@.len() as int) =~= conds@);
    LocalDateTime { date, ..base }
}

/// Whether `c` relates to `reference` as `relation` asks.
pub open spec fn satisfies(c: LocalDateTime, relation: DateRelation, reference: LocalDateTime) -> bool {
    match relation {
        DateRelation::Before => earlier(c, reference),
        DateRelation::OnOrBefore => !earlier(reference, c),
        DateRelation::Same => c.date == reference.date,
        DateRelation::OnOrAfter => !earlier(c, reference),
        DateRelation::After => earlier(reference, c),
    }
}

/// Whether `c` meets every condition.
pub open spec fn meets_all(c: LocalDateTime, conds: Seq<(DateRelation, LocalDateTime)>) -> bool {
    forall|i: int| 0 <= i < conds.len() ==> satisfies(c, (#[trigger] conds[i]).0, conds[i].1)
}

/// Every candidate of the first `periods` periods, corrected, in order.
pub open spec fn enumerated(rule: RecurrenceRule, anchor: LocalDateTime, periods: nat) -> Seq<LocalDateTime>
    decreases periods,
{
    if periods == 0 {
        Seq::empty()
    } else {
        enumerated(rule, anchor, (periods - 1) as nat) + period_candidates(rule, anchor, periods - 1).map_values(
            |c: LocalDateTime| adjusted(rule, c),
        )
    }
}

/// Walks the candidates `s` in order and keeps each one after the anchor
/// that meets the conditions and was not kept before; the walk stops for
/// good at the first candidate after both the anchor and the end. Returns
/// what was kept and whether the walk stopped.
pub open spec fn picked(
    s: Seq<LocalDateTime>,
    anchor: LocalDateTime,
    end: Option<LocalDateTime>,
    conds: Seq<(DateRelation, LocalDateTime)>,
) -> (Seq<LocalDateTime>, bool)
    decreases s.len(),
{
    if s.len() == 0 {
        (Seq::empty(), false)
    } else {
        let (kept, stopped) = picked(s.drop_last(), anchor, end, conds);
        let c = s.last();
        if stopped || !earlier(anchor, c) {
            (kept, stopped)
        } else if end matches Some(e) && earlier(e, c) {
            (kept, true)
        } else if !meets_all(c, conds) || kept.contains(c) {
            (kept, false)
        } else {
            (kept.push(c), false)
        }
    }
}

/// How many dates are still wanted: at most `limit`, and no more than the
/// series has left after the anchor, which counts as its first occurrence.
pub open spec fn wanted(rule: RecurrenceRule, limit: usize) -> int {
    if limit == 0 || rule.interval <= 0 {
        0
    } else {
        match rule.max_occurrences {
            Some(max) => {
                let left = if max - 1 < 0 { 0 } else { max - 1 };
                if left < limit { left } else { limit as int }
            },
            None => limit as int,
        }
    }
}

pub open spec fn first_n<A>(s: Seq<A>, n: int) -> Seq<A> {
    if s.len() <= n { s } else { s.take(n) }
}

/// The next dates `rule` fires on after `anchor`, on the local calendar.
pub open spec fn occurrences(
    rule: RecurrenceRule,
    anchor: LocalDateTime,
    end: Option<LocalDateTime>,
    conds: Seq<(DateRelation, LocalDateTime)>,
    limit: usize,
) -> Seq<LocalDateTime> {
    let w = wanted(rule, limit);
    if w == 0 {
        Seq::empty()
    } else {
        first_n(picked(enumerated(rule, anchor, MAX_PERIODS as nat), anchor, end, conds).0, w)
    }
}

/// Walking on past a stop keeps nothing more, and walking on never changes
/// what was kept so far.
proof fn lemma_picked_prefix(
    s: Seq<LocalDateTime>,
    t: Seq<LocalDateTime>,
    anchor: LocalDateTime,
    end: Option<LocalDateTime>,
    conds: Seq<(DateRelation, LocalDateTime)>,
)
    requires
        s.len() <= t.len(),
        t.take(s.len() as int) == s,
    ensures
        picked(s, anchor, end, conds).1 ==> picked(t, anchor, end, conds) == picked(s, anchor, end, conds),
        picked(s, anchor, end, conds).0.len() <= picked(t, anchor, end, conds).0.len(),
        picked(t, anchor, end, conds).0.take(picked(s, anchor, end, conds).0.len() as int) == picked(s, anchor, end, conds).0,
    decreases t.len(),
{
    if t.len() == s.len() {
        assert(t =~= s);
        assert(picked(s, anchor, end, conds).0.take(picked(s, anchor, end, conds).0.len() as int) =~= picked(s, anchor, end, conds).0);
    } else {
        assert(t.drop_last().take(s.len() as int) =~= s);
        lemma_picked_prefix(s, t.drop_last(), anchor, end, conds);
        let a = picked(s, anchor, end, conds).0;
        let b = picked(t.drop_last(), anchor, end, conds).0;
        let c = picked(t, anchor, end, conds).0;
        if c != b {
            assert(c.take(a.len() as int) =~= b.take(a.len() as int));
        }
    }
}

proof fn lemma_enumerated_prefix(rule: RecurrenceRule, anchor: LocalDateTime, p: nat, q: nat)
    requires
        p <= q,
    ensures
        enumerated(rule, anchor, p).len() <= enumerated(rule, anchor, q).len(),
        enumerated(rule, anchor, q).take(enumerated(rule, anchor, p).len() as int) == enumerated(rule, anchor, p),
    decreases q,
{
    if p == q {
        assert(enumerated(rule, anchor, q).take(enumerated(rule, anchor, p).len() as int) =~= enumerated(rule, anchor, p));
    } else {
        lemma_enumerated_prefix(rule, anchor, p, (q - 1) as nat);
        let a = enumerated(rule, anchor, p);
        let b = enumerated(rule, anchor, (q - 1) as nat);
        assert(enumerated(rule, anchor, q).take(a.len() as int) =~= b.take(a.len() as int));
    }
}

fn meets_all_exec(c: LocalDateTime, conds: &Vec<(DateRelation, LocalDateTime)>) -> (r: bool)
    ensures
        r == meets_all(c, conds@),
{
    let mut i: usize = 0;
    while i < conds.len()
        invariant
            i <= conds@.len(),
            forall|j: int| 0 <= j < i ==> satisfies(c, (#[trigger] conds@[j]).0, conds@[j].1),
        decreases conds@.len() - i,
    {
        let (relation, reference) = conds[i];
        let ok = match relation {
            DateRelation::Before => is_earlier(c, reference),
            DateRelation::OnOrBefore => !is_earlier(reference, c),
            DateRelation::Same => c.date == reference.date,
            DateRelation::OnOrAfter => !is_earlier(c, reference),
            DateRelation::After => is_earlier(reference, c),
        };
        if !ok {
            return false;
        }
        i = i + 1;
    }
    true
}

fn holds(v: &Vec<LocalDateTime>, c: LocalDateTime) -> (r: bool)
    ensures
        r == v@.contains(c),
{
    let mut i: usize = 0;
    while i < v.len()
        invariant
            i <= v@.len(),
            forall|j: int| 0 <= j < i ==> v@[j] != c,
        decreases v@.len() - i,
    {
        if v[i] == c {
            return true;
        }
        i = i + 1;
    }
    false
}

/// The next dates `rule` fires on after `anchor`, at most `limit` of them,
/// on the local calendar. `anchor` counts as the occurrence the rule starts
/// from and is never returned. `end` is the local end of the series, and
/// `conditions` the local date conditions every date has to meet.
pub fn next_local_occurrences(
    rule: &RecurrenceRule,
    anchor: LocalDateTime,
    end: Option<LocalDateTime>,
    conditions: &Vec<(DateRelation, LocalDateTime)>,
    limit: usize,
) -> (r: Vec<LocalDateTime>)
    requires
        valid_time(anchor),
        limit > 0 && rule.interval > 0 ==> rule.max_occurrences != Some(i32::MIN),
        wanted(*rule, limit) > 0 ==> days_fit(*rule),
        wanted(*rule, limit) > 0 && rule.unit == RecurrenceUnit::Week && selected_days(*rule).len() > 0
            ==> anchor.date.year > -262143,
    ensures
        r@ == occurrences(*rule, anchor, end, conditions@, limit),
{
    if limit == 0 || rule.interval <= 0 {
        return Vec::new();
    }
    let want: usize = match rule.max_occurrences {
        Some(max) => {
            let left: i32 = if max - 1 < 0 { 0 } else { max - 1 };
            if (left as usize) < limit { left as usize } else { limit }
        },
        None => limit,
    };
    if want == 0 {
        return Vec::new();
    }
    let ghost conds = conditions@;
    let ghost all = enumerated(*rule, anchor, MAX_PERIODS as nat);
    let mut found: Vec<LocalDateTime> = Vec::new();
    let mut period: usize = 0;
    while period < MAX_PERIODS
        invariant
            valid_time(anchor),
            days_fit(*rule),
            rule.unit == RecurrenceUnit::Week && selected_days(*rule).len() > 0 ==> anchor.date.year > -262143,
            conds == conditions@,
            all == enumerated(*rule, anchor, MAX_PERIODS as nat),
            want == wanted(*rule, limit),
            0 < want,
            period <= MAX_PERIODS,
            picked(enumerated(*rule, anchor, period as nat), anchor, end, conds) == (found@, false),
            found@.len() < want,
        decreases MAX_PERIODS - period,
    {
        let cands = candidates_of(rule, anchor, period);
        let ghost before = enumerated(*rule, anchor, period as nat);
        let ghost mapped = cands@.map_values(|c: LocalDateTime| adjusted(*rule, c));
        assert(enumerated(*rule, anchor, (period + 1) as nat) == before + mapped);
        let mut i: usize = 0;
        while i < cands.len()
            invariant
                valid_time(anchor),
                forall|j: int| 0 <= j < cands@.len() ==> valid_time(#[trigger] cands@[j]),
                conds == conditions@,
                all == enumerated(*rule, anchor, MAX_PERIODS as nat),
                want == wanted(*rule, limit),
                0 < want,
                period < MAX_PERIODS,
                before == enumerated(*rule, anchor, period as nat),
                mapped == cands@.map_values(|c: LocalDateTime| adjusted(*rule, c)),
                enumerated(*rule, anchor, (period + 1) as nat) == before + mapped,
                i <= cands@.len(),
                picked(before + mapped.take(i as int), anchor, end, conds) == (found@, false),
                found@.len() < want,
            decreases cands@.len() - i,
        {
            let candidate = adjust(rule, cands[i]);
            let ghost done = before + mapped.take(i as int);
            let ghost next = before + mapped.take(i + 1);
            proof {
                assert(next.drop_last() =~= done);
                assert(next.last() == candidate);
                lemma_enumerated_prefix(*rule, anchor, (period + 1) as nat, MAX_PERIODS as nat);
                assert(all.take(next.len() as int) =~= next) by {
                    assert((before + mapped).take(next.len() as int) =~= next);
                }
            }
            if is_earlier(anchor, candidate) {
                let past_end = match end {
                    Some(e) => is_earlier(e, candidate),
                    None => false,
                };
                if past_end {
                    proof {
                        lemma_picked_prefix(next, all, anchor, end, conds);
                    }
                    return found;
                }
                if meets_all_exec(candidate, conditions) && !holds(&found, candidate) {
                    found.push(candidate);
                    if found.len() >= want {
                        proof {
                            lemma_picked_prefix(next, all, anchor, end, conds);
                            assert(found@.len() == want);
                        }
                        return found;
                    }
                }
            }
            i = i + 1;
        }
        proof {
            assert(mapped.take(cands@.len() as int) =~= mapped);
        }
        period = period + 1;
    }
    proof {
        assert(found@.len() < want);
    }
    found
}

/// Whether a condition is still in force.
pub open spec fn live() -> spec_fn(DateCondition) -> bool {
    |c: DateCondition| !c.deleted
}

/// The date conditions of a rule that are in force: those of its pattern,
/// then those of its corrections, without the deleted ones.
pub open spec fn conditions_in_force(rule: RecurrenceRule) -> Seq<DateCondition> {
    (pattern_conditions(rule) + correction_conditions(rule)).filter(live())
}

pub open spec fn pattern_conditions(rule: RecurrenceRule) -> Seq<DateCondition> {
    match rule.details {
        Some(d) => match d.date_conditions {
            Some(v) => v@,
            None => Seq::empty(),
        },
        None => Seq::empty(),
    }
}

pub open spec fn correction_conditions(rule: RecurrenceRule) -> Seq<DateCondition> {
    match rule.adjustment {
        Some(a) => a.date_conditions@,
        None => Seq::empty(),
    }
}

fn push_live(out: &mut Vec<DateCondition>, v: &Vec<DateCondition>)
    ensures
        final(out)@ == old(out)@ + v@.filter(live()),
{
    let ghost start = out@;
    let mut i: usize = 0;
    while i < v.len()
        invariant
            i <= v@.len(),
            out@ == start + v@.take(i as int).filter(live()),
        decreases v@.len() - i,
    {
        proof {
            reveal(Seq::filter);
            assert(v@.take(i + 1).drop_last() =~= v@.take(i as int));
        }
        if !v[i].deleted {
            out.push(v[i]);
        }
        proof {
            reveal(Seq::filter);
        }
        i = i + 1;
    }
    assert(v@.take(v@.len() as int) =~= v@);
}

/// The date conditions of a rule that are in force, with their reference
/// instants still in UTC.
pub fn active_conditions(rule: &RecurrenceRule) -> (r: Vec<DateCondition>)
    ensures
        r@ == conditions_in_force(*rule),
{
    let mut out: Vec<DateCondition> = Vec::new();
    let ghost a = pattern_conditions(*rule);
    let ghost b = correction_conditions(*rule);
    match &rule.details {
        Some(d) => match &d.date_conditions {
            Some(v) => push_live(&mut out, v),
            None => {},
        },
        None => {},
    }
    assert(out@ =~= a.filter(live())) by {
        reveal(Seq::filter);
    }
    match &rule.adjustment {
        Some(x) => push_live(&mut out, &x.date_conditions),
        None => {},
    }
    assert(out@ =~= a.filter(live()) + b.filter(live())) by {
        reveal(Seq::filter);
    }
    proof {
        Seq::filter_distributes_over_add(a, b, live());
    }
    out
}

proof fn lemma_picked_facts(
    s: Seq<LocalDateTime>,
    anchor: LocalDateTime,
    end: Option<LocalDateTime>,
    conds: Seq<(DateRelation, LocalDateTime)>,
)
    ensures
        forall|i: int| 0 <= i < picked(s, anchor, end, conds).0.len() ==> {
            let c = #[trigger] picked(s, anchor, end, conds).0[i];
            &&& earlier(anchor, c)
            &&& (end matches Some(e) ==> !earlier(e, c))
            &&& meets_all(c, conds)
        },
        forall|i: int, j: int|
            0 <= i < j < picked(s, anchor, end, conds).0.len() ==> #[trigger] picked(s, anchor, end, conds).0[i]
                != #[trigger] picked(s, anchor, end, conds).0[j],
    decreases s.len(),
{
    if s.len() > 0 {
        lemma_picked_facts(s.drop_last(), anchor, end, conds);
        let kept = picked(s.drop_last(), anchor, end, conds).0;
        let now = picked(s, anchor, end, conds).0;
        if now != kept {
            assert(now == kept.push(s.last()));
            assert forall|i: int, j: int| 0 <= i < j < now.len() implies #[trigger] now[i] != #[trigger] now[j] by {
                if j == now.len() - 1 {
                    assert(!kept.contains(s.last()));
                    assert(now[i] == kept[i]);
                }
            }
        }
    }
}

/// What the preview promises of every rule: no more dates than were asked
/// for or than the series has left, each strictly after the anchor (which
/// is never shown again), none after the series' end, each meeting every
/// date condition, and none twice.
pub proof fn law_occurrences_stay_in_bounds(
    rule: RecurrenceRule,
    anchor: LocalDateTime,
    end: Option<LocalDateTime>,
    conds: Seq<(DateRelation, LocalDateTime)>,
    limit: usize,
)
    ensures
        occurrences(rule, anchor, end, conds, limit).len() <= wanted(rule, limit),
        wanted(rule, limit) <= limit,
        forall|i: int| 0 <= i < occurrences(rule, anchor, end, conds, limit).len() ==> {
            let c = #[trigger] occurrences(rule, anchor, end, conds, limit)[i];
            &&& earlier(anchor, c)
            &&& (end matches Some(e) ==> !earlier(e, c))
            &&& meets_all(c, conds)
        },
        forall|i: int, j: int|
            0 <= i < j < occurrences(rule, anchor, end, conds, limit).len() ==> #[trigger] occurrences(
                rule,
                anchor,
                end,
                conds,
                limit,
            )[i] != #[trigger] occurrences(rule, anchor, end, conds, limit)[j],
{
    let all = enumerated(rule, anchor, MAX_PERIODS as nat);
    lemma_picked_facts(all, anchor, end, conds);
    let w = wanted(rule, limit);
    let p = picked(all, anchor, end, conds).0;
    let r = occurrences(rule, anchor, end, conds, limit);
    if w != 0 && p.len() > w {
        assert forall|i: int| 0 <= i < r.len() implies r[i] == p[i] by {}
    }
}


/// The rule with another unit and interval, everything else kept.
pub open spec fn restepped(rule: RecurrenceRule, unit: RecurrenceUnit, interval: int) -> RecurrenceRule {
    RecurrenceRule { unit, interval: interval as i32, ..rule }
}

/// The longer units are whole multiples of the shorter ones: a rule every `n`
/// quarters, half-years or years offers, in every period, the dates of a rule
/// every `3n`, `6n` or `12n` months; one every `n` hours or days offers the
/// times of one every `60n` or `1440n` minutes.
pub proof fn law_units_are_multiples(rule: RecurrenceRule, anchor: LocalDateTime, period: int)
    requires
        rule.interval >= 1,
    ensures
        rule.unit == RecurrenceUnit::Quarter && rule.interval * 3 <= i32::MAX ==> period_candidates(rule, anchor, period)
            == period_candidates(restepped(rule, RecurrenceUnit::Month, rule.interval * 3), anchor, period),
        rule.unit == RecurrenceUnit::HalfYear && rule.interval * 6 <= i32::MAX ==> period_candidates(rule, anchor, period)
            == period_candidates(restepped(rule, RecurrenceUnit::Month, rule.interval * 6), anchor, period),
        rule.unit == RecurrenceUnit::Year && rule.interval * 12 <= i32::MAX ==> period_candidates(rule, anchor, period)
            == period_candidates(restepped(rule, RecurrenceUnit::Month, rule.interval * 12), anchor, period),
        rule.unit == RecurrenceUnit::Hour && rule.interval * 60 <= i32::MAX ==> period_candidates(rule, anchor, period)
            == period_candidates(restepped(rule, RecurrenceUnit::Minute, rule.interval * 60), anchor, period),
        rule.unit == RecurrenceUnit::Day && rule.interval * 1440 <= i32::MAX ==> period_candidates(rule, anchor, period)
            == period_candidates(restepped(rule, RecurrenceUnit::Minute, rule.interval * 1440), anchor, period),
{
    let n = rule.interval as int;
    assert(n * period * 3 == (n * 3) * period) by (nonlinear_arith);
    assert(n * period * 6 == (n * 6) * period) by (nonlinear_arith);
    assert(n * period * 12 == (n * 12) * period) by (nonlinear_arith);
    assert(n * period * 60 == (n * 60) * period) by (nonlinear_arith);
    assert(n * period * 1440 == (n * 1440) * period) by (nonlinear_arith);
}


/// The day of the month a rule that picks one fires on: its fixed day, or the
/// anchor's day when it names none.
pub open spec fn picked_day(rule: RecurrenceRule, anchor: LocalDateTime) -> int {
    match rule.details {
        Some(d) => match d.specific_date {
            Some(x) => x as int,
            None => anchor.date.day as int,
        },
        None => anchor.date.day as int,
    }
}

/// A monthly rule that picks a day of the month offers, in the `period`-th
/// period, at most one time: on that day of the month `interval * period`
/// months after the anchor's, at the anchor's time of day.
pub proof fn law_a_monthly_rule_steps_by_its_interval(rule: RecurrenceRule, anchor: LocalDateTime, period: int)
    requires
        rule.unit == RecurrenceUnit::Month,
        rule.interval >= 1,
        period >= 0,
        valid_time(anchor),
        !(rule.details matches Some(d) && d.specific_date is None && d.week_of_period is Some
            && d.weekday_of_week is Some),
    ensures
        period_candidates(rule, anchor, period).len() <= 1,
        forall|i: int| 0 <= i < period_candidates(rule, anchor, period).len() ==> {
            let c = #[trigger] period_candidates(rule, anchor, period)[i];
            &&& c.date.year * 12 + c.date.month == anchor.date.year * 12 + anchor.date.month + rule.interval * period
            &&& c.date.day == picked_day(rule, anchor)
            &&& c.hour == anchor.hour
            &&& c.minute == anchor.minute
        },
{
    let months = rule.interval * period;
    assert(rule.interval * period >= 0) by (nonlinear_arith)
        requires
            rule.interval >= 1,
            period >= 0,
    ;
    let first = LocalDate { day: 1, ..anchor.date };
    if months <= u32::MAX {
        match months_added(first, months as u32) {
            Some(f) => {
                if months > 0 {
                    let total = first.year * 12 + first.month - 1 + months;
                    assert(f.year * 12 + f.month == total + 1);
                }
            },
            None => {},
        }
    }
}


/// A rule every `n` minutes offers, in the `period`-th period, the time
/// exactly `n * period` minutes after the anchor, when there is one in the
/// range `chrono` covers.
pub proof fn law_a_minute_rule_steps_by_minutes(rule: RecurrenceRule, anchor: LocalDateTime, period: int, later: LocalDateTime)
    requires
        rule.unit == RecurrenceUnit::Minute,
        rule.interval >= 1,
        0 <= period <= MAX_PERIODS,
        valid_time(later),
        crate::viewmodels::recurrence::calendar::minute_number(later)
            == crate::viewmodels::recurrence::calendar::minute_number(anchor) + rule.interval * period,
        crate::viewmodels::recurrence::calendar::first_day_number() * 1440
            <= crate::viewmodels::recurrence::calendar::minute_number(later)
            <= crate::viewmodels::recurrence::calendar::last_day_number() * 1440 + 1439,
    ensures
        period_candidates(rule, anchor, period).len() == 1,
        valid_time(period_candidates(rule, anchor, period)[0]),
        crate::viewmodels::recurrence::calendar::minute_number(period_candidates(rule, anchor, period)[0])
            == crate::viewmodels::recurrence::calendar::minute_number(anchor) + rule.interval * period,
{
    let n = rule.interval * period;
    assert(0 <= n <= 2_147_483_647 * 500) by (nonlinear_arith)
        requires
            1 <= rule.interval <= 2_147_483_647,
            0 <= period <= 500,
            n == rule.interval * period,
    ;
    reveal(crate::viewmodels::recurrence::calendar::minutes_later);
    let t = (later.date.year, later.date.month, later.date.day, later.hour, later.minute);
    assert(LocalDateTime { date: LocalDate { year: t.0, month: t.1, day: t.2 }, hour: t.3, minute: t.4 } == later);
}

} // verus!
