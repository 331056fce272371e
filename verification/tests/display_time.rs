use chrono::{DateTime, TimeZone, Utc};
use flequit_ui::adapters::datetime::{
    end_of_day_after, format_due, horizon_day_offset, horizon_end, minutes_horizon,
    timezone_from_setting, try_format, DateTimeDisplaySettings, DisplayTimezone,
};
use flequit_ui::search::due::DueKeyword;
use flequit_ui::settings::locale::system_locale_from;

fn ns(value: &DateTime<Utc>) -> i128 {
    i128::from(value.timestamp()) * 1_000_000_000 + i128::from(value.timestamp_subsec_nanos())
}

fn at(y: i32, mo: u32, d: u32, h: u32, mi: u32, s: u32) -> i128 {
    ns(&Utc.with_ymd_and_hms(y, mo, d, h, mi, s).unwrap())
}

#[test]
fn utc_formatting_is_stable() {
    let value = at(2026, 12, 31, 9, 5, 0);
    let display = DateTimeDisplaySettings::new("UTC", "");
    assert_eq!(format_due(value, &display), "2026-12-31 09:05");
}

#[test]
fn named_timezone_and_custom_format_are_applied() {
    let value = at(2026, 1, 15, 23, 59, 0);
    let display = DateTimeDisplaySettings::new("Asia/Tokyo", "%Y/%m/%d %H:%M");

    assert_eq!(format_due(value, &display), "2026/01/16 08:59");
    assert_eq!(display.timezone, DisplayTimezone::Named("Asia/Tokyo".to_string()));
}

#[test]
fn invalid_custom_format_falls_back_for_due_labels() {
    let value = at(2026, 1, 15, 23, 59, 0);
    let display = DateTimeDisplaySettings::new("UTC", "%Q");

    assert!(try_format(value, &display).is_none());
    assert_eq!(format_due(value, &display), "2026-01-15 23:59");
}

#[test]
fn the_end_of_today_keeps_the_calendar_day() {
    let now = at(2026, 3, 1, 0, 30, 0);
    assert_eq!(
        end_of_day_after(now, 0, &DisplayTimezone::Utc, 0),
        at(2026, 3, 1, 23, 59, 59)
    );
}

#[test]
fn a_horizon_crosses_into_the_following_month() {
    let now = at(2026, 1, 30, 12, 0, 0);
    assert_eq!(
        end_of_day_after(now, 3, &DisplayTimezone::Utc, 0),
        at(2026, 2, 2, 23, 59, 59)
    );
}

#[test]
fn the_time_zone_setting_names_the_system_utc_or_a_database_zone() {
    assert_eq!(timezone_from_setting(""), DisplayTimezone::System);
    assert_eq!(timezone_from_setting("  system "), DisplayTimezone::System);
    assert_eq!(timezone_from_setting("UTC"), DisplayTimezone::Utc);
    assert_eq!(timezone_from_setting(" GMT"), DisplayTimezone::Utc);
    assert_eq!(
        timezone_from_setting(" Europe/London "),
        DisplayTimezone::Named("Europe/London".to_string())
    );
    assert_eq!(timezone_from_setting("Nowhere/Place"), DisplayTimezone::System);
}

#[test]
fn a_day_horizon_ends_at_the_end_of_the_day_in_the_named_zone() {
    // 20:00 UTC on the 15th is 05:00 on the 16th in Tokyo.
    let now = at(2026, 1, 15, 20, 0, 0);
    let tokyo = DisplayTimezone::Named("Asia/Tokyo".to_string());
    assert_eq!(
        horizon_end(DueKeyword::Within { days: 1 }, now, &tokyo, 0),
        Some(at(2026, 1, 16, 14, 59, 59))
    );
    assert_eq!(
        horizon_end(DueKeyword::Within { days: 2 }, now, &DisplayTimezone::Utc, 0),
        Some(at(2026, 1, 16, 23, 59, 59))
    );
    assert_eq!(
        horizon_end(DueKeyword::Within { days: 7 }, now, &DisplayTimezone::System, 42),
        Some(42)
    );
    assert_eq!(horizon_end(DueKeyword::Overdue, now, &tokyo, 0), None);
}

#[test]
fn a_day_horizon_across_a_dst_gap_uses_the_offset_of_now() {
    // In New York, 2026-03-08 02:00 does not exist, but 23:59:59 does; at the
    // end of 2026-11-01, 23:59:59 falls once.
    let ny = DisplayTimezone::Named("America/New_York".to_string());
    let now = at(2026, 3, 7, 17, 0, 0);
    assert_eq!(end_of_day_after(now, 1, &ny, 0), at(2026, 3, 9, 3, 59, 59));
}

#[test]
fn a_minutes_horizon_is_now_plus_the_minutes_while_chrono_holds_it() {
    let now = at(2026, 1, 15, 20, 0, 0);
    assert_eq!(minutes_horizon(now, 30), Some(at(2026, 1, 15, 20, 30, 0)));
    assert_eq!(
        horizon_end(DueKeyword::WithinMinutes { minutes: 90 }, now, &DisplayTimezone::Utc, 0),
        Some(at(2026, 1, 15, 21, 30, 0))
    );
    assert_eq!(minutes_horizon(now, u64::MAX), None);
    assert_eq!(minutes_horizon(now, 153_722_867_280_912), None);
    let last = ns(&DateTime::<Utc>::MAX_UTC);
    assert_eq!(minutes_horizon(last, 1), None);
    assert_eq!(minutes_horizon(last, 0), Some(last));
}

#[test]
fn the_day_offset_counts_today_as_the_first_day() {
    assert_eq!(horizon_day_offset(DueKeyword::Within { days: 0 }), Some(0));
    assert_eq!(horizon_day_offset(DueKeyword::Within { days: 1 }), Some(0));
    assert_eq!(horizon_day_offset(DueKeyword::Within { days: 30 }), Some(29));
    assert_eq!(horizon_day_offset(DueKeyword::WithinMinutes { minutes: 5 }), None);
    assert_eq!(horizon_day_offset(DueKeyword::Overdue), None);
}

#[test]
fn a_day_past_chronos_range_ends_at_its_last_instant() {
    let last = ns(&DateTime::<Utc>::MAX_UTC);
    let now = at(2026, 1, 1, 0, 0, 0);
    assert_eq!(end_of_day_after(now, u64::MAX, &DisplayTimezone::Utc, 0), last);
    let tokyo = DisplayTimezone::Named("Asia/Tokyo".to_string());
    assert_eq!(end_of_day_after(now, u64::MAX, &tokyo, 0), last);
}

#[test]
fn the_system_locale_ignores_blank_c_and_posix() {
    assert_eq!(system_locale_from(Some("ja_JP.UTF-8".to_string())), Some("ja_JP.UTF-8".to_string()));
    assert_eq!(system_locale_from(Some("  ".to_string())), None);
    assert_eq!(system_locale_from(Some("C".to_string())), None);
    assert_eq!(system_locale_from(Some("POSIX".to_string())), None);
    assert_eq!(system_locale_from(None), None);
}
