//! Repeat rules as the storage layer keeps them. Instants are nanoseconds
//! since the Unix epoch, UTC; ids are text.

use vstd::prelude::*;

verus! {

/// The length of the period a rule repeats over.
#[derive(Debug, Clone, Copy, PartialEq, Eq, Structural)]
pub enum RecurrenceUnit {
    Minute,
    Hour,
    Day,
    Week,
    Month,
    Quarter,
    HalfYear,
    Year,
}

#[derive(Debug, Clone, Copy, PartialEq, Eq, Structural)]
pub enum DayOfWeek {
    Sunday,
    Monday,
    Tuesday,
    Wednesday,
    Thursday,
    Friday,
    Saturday,
}

/// Which occurrence of a weekday inside a month.
#[derive(Debug, Clone, Copy, PartialEq, Eq, Structural)]
pub enum WeekOfMonth {
    First,
    Second,
    Third,
    Fourth,
    Last,
}

/// How a candidate date has to relate to a reference date.
#[derive(Debug, Clone, Copy, PartialEq, Eq, Structural)]
pub enum DateRelation {
    Before,
    OnOrBefore,
    Same,
    OnOrAfter,
    After,
}

/// Which way a correction moves a date.
#[derive(Debug, Clone, Copy, PartialEq, Eq, Structural)]
pub enum AdjustmentDirection {
    Previous,
    Next,
    Nearest,
}

/// Where a correction moves a date to.
#[derive(Debug, Clone, Copy, PartialEq, Eq, Structural)]
pub enum AdjustmentTarget {
    /// A fixed number of days.
    Days,
    /// The nearest given weekday.
    SpecificWeekday,
    /// The nearest working day.
    Weekday,
    /// The nearest day that is not on a weekend.
    NonWeekend,
    /// The nearest weekend day.
    Weekend,
    /// The nearest weekend day.
    WeekendOnly,
    /// A target that needs a holiday calendar.
    Holiday,
}

/// A condition every occurrence has to meet.
#[derive(Debug, Clone, Copy, PartialEq, Eq)]
pub struct DateCondition {
    pub relation: DateRelation,
    pub reference_date: i128,
    pub deleted: bool,
}

/// "If the date falls on this weekday, move it."
#[derive(Debug, Clone, Copy, PartialEq, Eq)]
pub struct WeekdayCondition {
    pub if_weekday: DayOfWeek,
    pub then_direction: AdjustmentDirection,
    pub then_target: AdjustmentTarget,
    pub then_weekday: Option<DayOfWeek>,
    pub then_days: Option<i32>,
    pub deleted: bool,
}

/// The corrections applied to each date a rule yields.
#[derive(Debug, Clone, PartialEq, Eq)]
pub struct RecurrenceAdjustment {
    pub date_conditions: Vec<DateCondition>,
    pub weekday_conditions: Vec<WeekdayCondition>,
}

/// The day inside each period a rule fires on.
#[derive(Debug, Clone, PartialEq, Eq)]
pub struct RecurrenceDetails {
    pub specific_date: Option<i32>,
    pub week_of_period: Option<WeekOfMonth>,
    pub weekday_of_week: Option<DayOfWeek>,
    pub date_conditions: Option<Vec<DateCondition>>,
    pub created_at: i128,
    pub updated_at: i128,
    pub deleted: bool,
    pub updated_by: String,
}

/// A repeat rule.
#[derive(Debug, Clone, PartialEq, Eq)]
pub struct RecurrenceRule {
    pub id: String,
    pub unit: RecurrenceUnit,
    pub interval: i32,
    pub days_of_week: Option<Vec<DayOfWeek>>,
    pub details: Option<RecurrenceDetails>,
    pub adjustment: Option<RecurrenceAdjustment>,
    pub end_date: Option<i128>,
    pub max_occurrences: Option<i32>,
    pub created_at: i128,
    pub updated_at: i128,
    pub deleted: bool,
    pub updated_by: String,
}

/// A weekday counted from Sunday as 0.
pub open spec fn weekday_index(d: DayOfWeek) -> u32 {
    match d {
        DayOfWeek::Sunday => 0,
        DayOfWeek::Monday => 1,
        DayOfWeek::Tuesday => 2,
        DayOfWeek::Wednesday => 3,
        DayOfWeek::Thursday => 4,
        DayOfWeek::Friday => 5,
        DayOfWeek::Saturday => 6,
    }
}

/// A weekday counted from Sunday as 0.
pub fn weekday_of(d: &DayOfWeek) -> (r: u32)
    ensures
        r == weekday_index(*d),
        r < 7,
{
    match d {
        DayOfWeek::Sunday => 0,
        DayOfWeek::Monday => 1,
        DayOfWeek::Tuesday => 2,
        DayOfWeek::Wednesday => 3,
        DayOfWeek::Thursday => 4,
        DayOfWeek::Friday => 5,
        DayOfWeek::Saturday => 6,
    }
}

pub struct DetailsView {
    pub specific_date: Option<i32>,
    pub week_of_period: Option<WeekOfMonth>,
    pub weekday_of_week: Option<DayOfWeek>,
    pub date_conditions: Option<Seq<DateCondition>>,
    pub created_at: i128,
    pub updated_at: i128,
    pub deleted: bool,
    pub updated_by: Seq<char>,
}

pub struct AdjustmentView {
    pub date_conditions: Seq<DateCondition>,
    pub weekday_conditions: Seq<WeekdayCondition>,
}

/// A repeat rule as plain values.
pub struct RuleView {
    pub id: Seq<char>,
    pub unit: RecurrenceUnit,
    pub interval: i32,
    pub days_of_week: Option<Seq<DayOfWeek>>,
    pub details: Option<DetailsView>,
    pub adjustment: Option<AdjustmentView>,
    pub end_date: Option<i128>,
    pub max_occurrences: Option<i32>,
    pub created_at: i128,
    pub updated_at: i128,
    pub deleted: bool,
    pub updated_by: Seq<char>,
}

impl View for RecurrenceDetails {
    type V = DetailsView;

    open spec fn view(&self) -> DetailsView {
        DetailsView {
            specific_date: self.specific_date,
            week_of_period: self.week_of_period,
            weekday_of_week: self.weekday_of_week,
            date_conditions: match self.date_conditions {
                Some(v) => Some(v@),
                None => None,
            },
            created_at: self.created_at,
            updated_at: self.updated_at,
            deleted: self.deleted,
            updated_by: self.updated_by@,
        }
    }
}

impl View for RecurrenceAdjustment {
    type V = AdjustmentView;

    open spec fn view(&self) -> AdjustmentView {
        AdjustmentView { date_conditions: self.date_conditions@, weekday_conditions: self.weekday_conditions@ }
    }
}

impl View for RecurrenceRule {
    type V = RuleView;

    open spec fn view(&self) -> RuleView {
        RuleView {
            id: self.id@,
            unit: self.unit,
            interval: self.interval,
            days_of_week: match self.days_of_week {
                Some(v) => Some(v@),
                None => None,
            },
            details: match self.details {
                Some(d) => Some(d@),
                None => None,
            },
            adjustment: match self.adjustment {
                Some(a) => Some(a@),
                None => None,
            },
            end_date: self.end_date,
            max_occurrences: self.max_occurrences,
            created_at: self.created_at,
            updated_at: self.updated_at,
            deleted: self.deleted,
            updated_by: self.updated_by@,
        }
    }
}

fn copy_seq<T: Copy>(v: &Vec<T>) -> (r: Vec<T>)
    ensures
        r@ == v@,
{
    let mut out: Vec<T> = Vec::new();
    let mut i: usize = 0;
    while i < v.len()
        invariant
            i <= v@.len(),
            out@ == v@.take(i as int),
        decreases v@.len() - i,
    {
        out.push(v[i]);
        assert(out@ =~= v@.take(i + 1));
        i = i + 1;
    }
    assert(v@.take(v@.len() as int) =~= v@);
    out
}

fn copy_details(d: &RecurrenceDetails) -> (r: RecurrenceDetails)
    ensures
        r@ == d@,
{
    RecurrenceDetails {
        specific_date: d.specific_date,
        week_of_period: d.week_of_period,
        weekday_of_week: d.weekday_of_week,
        date_conditions: match &d.date_conditions {
            Some(v) => Some(copy_seq(v)),
            None => None,
        },
        created_at: d.created_at,
        updated_at: d.updated_at,
        deleted: d.deleted,
        updated_by: d.updated_by.clone(),
    }
}

/// A copy of a rule.
pub fn copy_rule(r: &RecurrenceRule) -> (c: RecurrenceRule)
    ensures
        c@ == r@,
{
    RecurrenceRule {
        id: r.id.clone(),
        unit: r.unit,
        interval: r.interval,
        days_of_week: match &r.days_of_week {
            Some(v) => Some(copy_seq(v)),
            None => None,
        },
        details: match &r.details {
            Some(d) => Some(copy_details(d)),
            None => None,
        },
        adjustment: match &r.adjustment {
            Some(a) => Some(RecurrenceAdjustment {
                date_conditions: copy_seq(&a.date_conditions),
                weekday_conditions: copy_seq(&a.weekday_conditions),
            }),
            None => None,
        },
        end_date: r.end_date,
        max_occurrences: r.max_occurrences,
        created_at: r.created_at,
        updated_at: r.updated_at,
        deleted: r.deleted,
        updated_by: r.updated_by.clone(),
    }
}

} // verus!
