use chrono::{DateTime, Datelike, TimeZone, Timelike, Utc};
use flequit_ui::adapters::datetime::DateTimeParts;
use flequit_ui::adapters::recurrence::{
    from_unit, from_weekday_index, to_recurrence_state, to_unit, to_weekday_index, RecurrenceEnd,
    RecurrenceMonthlyMode, RecurrenceState, RecurrenceUnit, DEFAULT_MAX_OCCURRENCES,
    DEFAULT_PREVIEW_COUNT,
};
use flequit_ui::viewmodels::recurrence::calendar::{day_number_of, LocalDate, LocalDateTime};
use flequit_ui::viewmodels::recurrence::model::{
    AdjustmentDirection, AdjustmentTarget, DateCondition, DateRelation, DayOfWeek,
    RecurrenceAdjustment, RecurrenceDetails, RecurrenceRule, RecurrenceUnit as DomainUnit,
    WeekOfMonth, WeekdayCondition,
};
use flequit_ui::viewmodels::recurrence::occurrence::{active_conditions, next_local_occurrences};
use flequit_ui::viewmodels::recurrence::{end_parts, rule_from_state};

fn utc(year: i32, month: u32, day: u32, hour: u32, minute: u32) -> DateTime<Utc> {
    Utc.with_ymd_and_hms(year, month, day, hour, minute, 0).unwrap()
}

fn ns(t: DateTime<Utc>) -> i128 {
    t.timestamp() as i128 * 1_000_000_000
}

fn local(t: DateTime<Utc>) -> LocalDateTime {
    LocalDateTime {
        date: LocalDate {
            year: t.year(),
            month: t.month(),
            day: t.day(),
        },
        hour: t.hour(),
        minute: t.minute(),
    }
}

fn at(year: i32, month: u32, day: u32, hour: u32, minute: u32) -> LocalDateTime {
    local(utc(year, month, day, hour, minute))
}

fn parts(t: DateTime<Utc>) -> DateTimeParts {
    DateTimeParts {
        year: t.year(),
        month: t.month() as i32,
        day: t.day() as i32,
        hour: t.hour() as i32,
        minute: t.minute() as i32,
    }
}

fn new_id() -> String {
    uuid::Uuid::new_v4().to_string()
}

fn rule(unit: DomainUnit, interval: i32) -> RecurrenceRule {
    let now = ns(utc(2026, 1, 1, 0, 0));
    RecurrenceRule {
        id: new_id(),
        unit,
        interval,
        days_of_week: None,
        details: None,
        adjustment: None,
        end_date: None,
        max_occurrences: None,
        created_at: now,
        updated_at: now,
        deleted: false,
        updated_by: new_id(),
    }
}

fn details() -> RecurrenceDetails {
    let now = ns(utc(2026, 1, 1, 0, 0));
    RecurrenceDetails {
        specific_date: None,
        week_of_period: None,
        weekday_of_week: None,
        date_conditions: None,
        created_at: now,
        updated_at: now,
        deleted: false,
        updated_by: new_id(),
    }
}

fn weekday_adjustment(condition: WeekdayCondition) -> RecurrenceAdjustment {
    RecurrenceAdjustment {
        date_conditions: vec![],
        weekday_conditions: vec![condition],
    }
}

fn condition(
    if_weekday: DayOfWeek,
    direction: AdjustmentDirection,
    target: AdjustmentTarget,
) -> WeekdayCondition {
    WeekdayCondition {
        if_weekday,
        then_direction: direction,
        then_target: target,
        then_weekday: None,
        then_days: None,
        deleted: false,
    }
}

/// The preview on the UTC calendar, where local and UTC fields agree.
fn preview(rule: &RecurrenceRule, anchor: LocalDateTime, limit: usize) -> Vec<LocalDateTime> {
    let end = rule
        .end_date
        .map(|end| local(DateTime::from_timestamp_nanos(end as i64)));
    let conditions: Vec<(DateRelation, LocalDateTime)> = active_conditions(rule)
        .iter()
        .map(|c| {
            (
                c.relation,
                local(DateTime::from_timestamp_nanos(c.reference_date as i64)),
            )
        })
        .collect();
    next_local_occurrences(rule, anchor, end, &conditions, limit)
}

#[test]
fn a_daily_rule_steps_by_its_interval_and_never_returns_the_anchor() {
    let anchor = at(2026, 9, 6, 9, 0);

    let dates = preview(&rule(DomainUnit::Day, 3), anchor, 3);

    assert_eq!(
        dates,
        vec![
            at(2026, 9, 9, 9, 0),
            at(2026, 9, 12, 9, 0),
            at(2026, 9, 15, 9, 0)
        ]
    );
}

#[test]
fn a_weekly_rule_fires_on_every_named_weekday_of_the_week() {
    // 2026-09-06 is a Sunday, so Tuesday and Thursday are still ahead of it
    // in the same week.
    let mut weekly = rule(DomainUnit::Week, 2);
    weekly.days_of_week = Some(vec![DayOfWeek::Tuesday, DayOfWeek::Thursday]);

    let dates = preview(&weekly, at(2026, 9, 6, 9, 0), 4);

    assert_eq!(
        dates,
        vec![
            at(2026, 9, 8, 9, 0),
            at(2026, 9, 10, 9, 0),
            at(2026, 9, 22, 9, 0),
            at(2026, 9, 24, 9, 0),
        ]
    );
}

#[test]
fn a_monthly_rule_keeps_the_anchors_day_of_month() {
    let dates = preview(&rule(DomainUnit::Month, 1), at(2026, 1, 15, 9, 0), 2);

    assert_eq!(dates, vec![at(2026, 2, 15, 9, 0), at(2026, 3, 15, 9, 0)]);
}

#[test]
fn a_month_that_cannot_supply_the_day_is_skipped_rather_than_clamped() {
    let mut monthly = rule(DomainUnit::Month, 1);
    monthly.details = Some(RecurrenceDetails {
        specific_date: Some(31),
        ..details()
    });

    let dates = preview(&monthly, at(2026, 1, 31, 9, 0), 3);

    // February and April have no 31st.
    assert_eq!(
        dates,
        vec![
            at(2026, 3, 31, 9, 0),
            at(2026, 5, 31, 9, 0),
            at(2026, 7, 31, 9, 0)
        ]
    );
}

#[test]
fn the_second_tuesday_of_each_month_is_resolved_from_the_pattern() {
    let mut monthly = rule(DomainUnit::Month, 1);
    monthly.details = Some(RecurrenceDetails {
        week_of_period: Some(WeekOfMonth::Second),
        weekday_of_week: Some(DayOfWeek::Tuesday),
        ..details()
    });

    let dates = preview(&monthly, at(2026, 9, 1, 9, 0), 3);

    assert_eq!(
        dates,
        vec![
            at(2026, 9, 8, 9, 0),
            at(2026, 10, 13, 9, 0),
            at(2026, 11, 10, 9, 0)
        ]
    );
}

#[test]
fn the_last_friday_is_the_last_one_that_still_falls_in_the_month() {
    let mut monthly = rule(DomainUnit::Month, 1);
    monthly.details = Some(RecurrenceDetails {
        week_of_period: Some(WeekOfMonth::Last),
        weekday_of_week: Some(DayOfWeek::Friday),
        ..details()
    });

    let dates = preview(&monthly, at(2026, 1, 1, 9, 0), 2);

    assert_eq!(dates, vec![at(2026, 1, 30, 9, 0), at(2026, 2, 27, 9, 0)]);
}

#[test]
fn a_quarterly_rule_steps_three_months_at_a_time() {
    let dates = preview(&rule(DomainUnit::Quarter, 1), at(2026, 1, 10, 9, 0), 2);

    assert_eq!(dates, vec![at(2026, 4, 10, 9, 0), at(2026, 7, 10, 9, 0)]);
}

#[test]
fn an_end_date_stops_the_series() {
    let mut daily = rule(DomainUnit::Day, 1);
    daily.end_date = Some(ns(utc(2026, 9, 8, 23, 59)));

    let dates = preview(&daily, at(2026, 9, 6, 9, 0), 5);

    assert_eq!(dates, vec![at(2026, 9, 7, 9, 0), at(2026, 9, 8, 9, 0)]);
}

#[test]
fn a_count_limit_counts_the_anchor_as_the_first_occurrence() {
    let mut daily = rule(DomainUnit::Day, 1);
    daily.max_occurrences = Some(3);

    let dates = preview(&daily, at(2026, 9, 6, 9, 0), 5);

    assert_eq!(dates, vec![at(2026, 9, 7, 9, 0), at(2026, 9, 8, 9, 0)]);
}

#[test]
fn a_rule_that_repeats_only_once_has_nothing_ahead_of_it() {
    let mut daily = rule(DomainUnit::Day, 1);
    daily.max_occurrences = Some(1);

    assert!(preview(&daily, at(2026, 9, 6, 9, 0), 5).is_empty());
}

#[test]
fn an_interval_of_zero_produces_nothing_rather_than_looping() {
    assert!(preview(&rule(DomainUnit::Day, 0), at(2026, 9, 6, 9, 0), 5).is_empty());
}

#[test]
fn a_weekend_occurrence_is_moved_to_the_previous_working_day() {
    let mut weekly = rule(DomainUnit::Week, 1);
    // 2026-09-05 is a Saturday.
    weekly.adjustment = Some(weekday_adjustment(condition(
        DayOfWeek::Saturday,
        AdjustmentDirection::Previous,
        AdjustmentTarget::Weekday,
    )));

    let dates = preview(&weekly, at(2026, 9, 5, 9, 0), 2);

    assert_eq!(dates, vec![at(2026, 9, 11, 9, 0), at(2026, 9, 18, 9, 0)]);
}

#[test]
fn a_fixed_shift_moves_the_occurrence_by_the_requested_days() {
    let mut weekly = rule(DomainUnit::Week, 1);
    let mut shift = condition(
        DayOfWeek::Saturday,
        AdjustmentDirection::Next,
        AdjustmentTarget::Days,
    );
    shift.then_days = Some(2);
    weekly.adjustment = Some(weekday_adjustment(shift));

    let dates = preview(&weekly, at(2026, 9, 5, 9, 0), 2);

    // The anchor's own Saturday still counts: shifted forward it lands
    // after the anchor, so it is the first date ahead.
    assert_eq!(dates, vec![at(2026, 9, 7, 9, 0), at(2026, 9, 14, 9, 0)]);
}

#[test]
fn hourly_and_minute_rules_step_within_the_day() {
    let hourly = preview(&rule(DomainUnit::Hour, 5), at(2026, 9, 6, 22, 0), 2);
    assert_eq!(hourly, vec![at(2026, 9, 7, 3, 0), at(2026, 9, 7, 8, 0)]);

    let minutes = preview(&rule(DomainUnit::Minute, 45), at(2026, 9, 6, 23, 30), 2);
    assert_eq!(minutes, vec![at(2026, 9, 7, 0, 15), at(2026, 9, 7, 1, 0)]);
}

#[test]
fn a_yearly_rule_on_the_29th_of_february_waits_for_a_leap_year() {
    let dates = preview(&rule(DomainUnit::Year, 1), at(2024, 2, 29, 9, 0), 2);

    assert_eq!(dates, vec![at(2028, 2, 29, 9, 0), at(2032, 2, 29, 9, 0)]);
}

#[test]
fn a_date_condition_filters_out_dates() {
    let mut daily = rule(DomainUnit::Day, 1);
    daily.details = Some(RecurrenceDetails {
        date_conditions: Some(vec![DateCondition {
            relation: DateRelation::OnOrAfter,
            reference_date: ns(utc(2026, 9, 10, 0, 0)),
            deleted: false,
        }]),
        ..details()
    });

    let dates = preview(&daily, at(2026, 9, 6, 9, 0), 2);
    assert_eq!(dates, vec![at(2026, 9, 10, 9, 0), at(2026, 9, 11, 9, 0)]);

    if let Some(d) = daily.details.as_mut() {
        d.date_conditions.as_mut().unwrap()[0].deleted = true;
    }
    assert!(active_conditions(&daily).is_empty());
}

#[test]
fn the_nearest_weekend_day_is_looked_for_backwards_first() {
    let mut weekly = rule(DomainUnit::Week, 1);
    weekly.days_of_week = Some(vec![DayOfWeek::Wednesday]);
    // A Wednesday is three days from both Sunday and Saturday.
    weekly.adjustment = Some(weekday_adjustment(condition(
        DayOfWeek::Wednesday,
        AdjustmentDirection::Nearest,
        AdjustmentTarget::Weekend,
    )));

    // 2026-08-31 is a Monday: that week's Wednesday moves back before it.
    let dates = preview(&weekly, at(2026, 8, 31, 9, 0), 2);

    assert_eq!(dates, vec![at(2026, 9, 6, 9, 0), at(2026, 9, 13, 9, 0)]);
}

fn state() -> RecurrenceState {
    let anchor = utc(2026, 9, 6, 9, 0);
    RecurrenceState {
        enabled: true,
        ..to_recurrence_state("t1", None, parts(anchor), None)
    }
}

fn end_instant(state: &RecurrenceState) -> Option<i128> {
    let p = end_parts(state);
    Utc.with_ymd_and_hms(
        p.year,
        p.month as u32,
        p.day as u32,
        p.hour as u32,
        p.minute as u32,
        0,
    )
    .single()
    .map(ns)
}

fn save(draft: &RecurrenceState, existing: Option<&RecurrenceRule>, user: &str) -> Option<RecurrenceRule> {
    rule_from_state(
        draft,
        existing,
        end_instant(draft),
        user,
        ns(Utc::now()),
        &new_id(),
    )
}

#[test]
fn a_disabled_draft_describes_no_rule() {
    let draft = RecurrenceState {
        enabled: false,
        ..state()
    };

    assert!(save(&draft, None, &new_id()).is_none());
}

#[test]
fn weekday_flags_only_reach_a_weekly_rule() {
    let mut draft = state();
    draft.tuesday = true;
    draft.unit = RecurrenceUnit::Day;

    let daily = save(&draft, None, &new_id()).unwrap();
    assert!(daily.days_of_week.is_none());

    draft.unit = RecurrenceUnit::Week;
    let weekly = save(&draft, None, &new_id()).unwrap();
    assert_eq!(weekly.days_of_week.map(|days| days.len()), Some(1));
}

#[test]
fn a_day_of_the_month_is_only_recorded_for_periods_of_months() {
    let mut draft = state();
    draft.monthly_mode = RecurrenceMonthlyMode::DayOfMonth;
    draft.day_of_month = 15;

    draft.unit = RecurrenceUnit::Week;
    let weekly = save(&draft, None, &new_id()).unwrap();
    assert!(weekly.details.is_none());

    draft.unit = RecurrenceUnit::Month;
    let monthly = save(&draft, None, &new_id()).unwrap();
    assert_eq!(
        monthly.details.and_then(|details| details.specific_date),
        Some(15)
    );
}

#[test]
fn each_way_of_ending_excludes_the_other() {
    let mut draft = state();
    draft.end_kind = RecurrenceEnd::AfterCount;
    draft.max_occurrences = 4;

    let counted = save(&draft, None, &new_id()).unwrap();
    assert_eq!(counted.max_occurrences, Some(4));
    assert!(counted.end_date.is_none());

    draft.end_kind = RecurrenceEnd::OnDate;
    draft.end_year = 2026;
    draft.end_month = 12;
    draft.end_day = 24;

    let dated = save(&draft, None, &new_id()).unwrap();
    assert!(dated.max_occurrences.is_none());
    assert_eq!(dated.end_date, Some(ns(utc(2026, 12, 24, 23, 59))));
}

#[test]
fn an_interval_below_one_is_raised_rather_than_saved() {
    let mut draft = state();
    draft.interval = 0;

    let rule = save(&draft, None, &new_id()).unwrap();

    assert_eq!(rule.interval, 1);
}

#[test]
fn editing_a_rule_keeps_its_identity_and_its_corrections() {
    let user_id = new_id();
    let created = save(&state(), None, &user_id).unwrap();

    let mut draft = state();
    draft.task_id = "t1".to_string();
    draft.interval = 5;
    let updated = save(&draft, Some(&created), &user_id).unwrap();

    assert_eq!(updated.id, created.id);
    assert_eq!(updated.created_at, created.created_at);
    assert_eq!(updated.interval, 5);
}

#[test]
fn an_interval_above_the_spin_box_is_lowered() {
    let mut draft = state();
    draft.interval = 5000;

    assert_eq!(save(&draft, None, &new_id()).unwrap().interval, 999);
}

#[test]
fn corrections_and_conditions_survive_a_save() {
    let mut existing = rule(DomainUnit::Week, 1);
    existing.adjustment = Some(weekday_adjustment(condition(
        DayOfWeek::Saturday,
        AdjustmentDirection::Previous,
        AdjustmentTarget::Weekday,
    )));
    existing.details = Some(RecurrenceDetails {
        date_conditions: Some(vec![DateCondition {
            relation: DateRelation::Before,
            reference_date: 7,
            deleted: false,
        }]),
        ..details()
    });

    let saved = save(&state(), Some(&existing), &new_id()).unwrap();

    assert_eq!(saved.adjustment, existing.adjustment);
    assert_eq!(
        saved.details.unwrap().date_conditions,
        existing.details.unwrap().date_conditions
    );
}

#[test]
fn every_unit_survives_a_round_trip() {
    for unit in [
        DomainUnit::Minute,
        DomainUnit::Hour,
        DomainUnit::Day,
        DomainUnit::Week,
        DomainUnit::Month,
        DomainUnit::Quarter,
        DomainUnit::HalfYear,
        DomainUnit::Year,
    ] {
        let mapped = from_unit(to_unit(&unit));
        assert_eq!(to_unit(&mapped), to_unit(&unit));
    }
}

fn weekly_rule() -> RecurrenceRule {
    let mut weekly = rule(DomainUnit::Week, 2);
    weekly.days_of_week = Some(vec![DayOfWeek::Tuesday, DayOfWeek::Thursday]);
    weekly
}

#[test]
fn a_task_without_a_rule_still_gets_a_usable_draft() {
    let anchor = utc(2026, 9, 6, 12, 0);

    let state = to_recurrence_state("t1", None, parts(anchor), None);

    assert!(!state.enabled);
    assert_eq!(state.unit, RecurrenceUnit::Day);
    assert_eq!(state.interval, 1);
    assert_eq!(state.day_of_month, 6);
    assert_eq!(state.max_occurrences, DEFAULT_MAX_OCCURRENCES);
    assert_eq!(state.preview_count, DEFAULT_PREVIEW_COUNT);
    assert_eq!(state.end_kind, RecurrenceEnd::Never);
}

#[test]
fn the_selected_weekdays_come_back_as_flags() {
    let anchor = utc(2026, 9, 6, 12, 0);

    let state = to_recurrence_state("t1", Some(&weekly_rule()), parts(anchor), None);

    assert!(state.enabled);
    assert!(state.tuesday && state.thursday);
    assert!(!state.sunday && !state.monday && !state.saturday);
    assert_eq!(state.interval, 2);
}

#[test]
fn an_end_date_wins_over_a_count_in_the_editor() {
    let anchor = utc(2026, 9, 6, 12, 0);
    let mut rule = weekly_rule();
    let end = utc(2026, 12, 24, 23, 59);
    rule.end_date = Some(ns(end));
    rule.max_occurrences = Some(4);

    let state = to_recurrence_state("t1", Some(&rule), parts(anchor), Some(parts(end)));

    assert_eq!(state.end_kind, RecurrenceEnd::OnDate);
    assert_eq!(
        (state.end_year, state.end_month, state.end_day),
        (2026, 12, 24)
    );
    assert_eq!(state.max_occurrences, 4);
}

#[test]
fn a_draft_takes_its_weekday_from_the_anchor() {
    // 2026-09-10 is a Thursday.
    let state = to_recurrence_state("t1", None, parts(utc(2026, 9, 10, 8, 0)), None);
    assert_eq!(state.weekday_of_month, 4);

    let broken = DateTimeParts {
        year: 2026,
        month: 2,
        day: 30,
        hour: 0,
        minute: 0,
    };
    assert_eq!(to_recurrence_state("t1", None, broken, None).weekday_of_month, 0);
}

#[test]
fn weekday_indices_wrap_round_the_week() {
    assert_eq!(to_weekday_index(&DayOfWeek::Sunday), 0);
    assert_eq!(to_weekday_index(&DayOfWeek::Saturday), 6);
    assert_eq!(to_weekday_index(&from_weekday_index(3)), 3);
    assert_eq!(from_weekday_index(-1), DayOfWeek::Saturday);
    assert_eq!(from_weekday_index(9), DayOfWeek::Tuesday);
}

#[test]
fn the_day_number_counts_days_as_chrono_does() {
    let epoch = chrono::NaiveDate::from_ymd_opt(1970, 1, 1).unwrap();
    let mut samples = vec![
        chrono::NaiveDate::MIN,
        chrono::NaiveDate::MAX,
        epoch,
        chrono::NaiveDate::from_ymd_opt(2000, 2, 29).unwrap(),
        chrono::NaiveDate::from_ymd_opt(1900, 3, 1).unwrap(),
        chrono::NaiveDate::from_ymd_opt(0, 1, 1).unwrap(),
        chrono::NaiveDate::from_ymd_opt(-1, 12, 31).unwrap(),
        chrono::NaiveDate::from_ymd_opt(-400, 2, 29).unwrap(),
    ];
    let mut day = chrono::NaiveDate::from_ymd_opt(-801, 1, 1).unwrap();
    while day.year() < 2401 {
        samples.push(day);
        day = day + chrono::Days::new(13);
    }
    for date in samples {
        let local = LocalDate { year: date.year(), month: date.month(), day: date.day() };
        let expected = date.signed_duration_since(epoch).num_days();
        assert_eq!(day_number_of(local), expected, "{}", date);
        let weekday = (expected + 4).rem_euclid(7) as u32;
        assert_eq!(weekday, date.weekday().num_days_from_sunday(), "{}", date);
    }
}
