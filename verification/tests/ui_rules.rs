use flequit_ui::error::UiError;
use flequit_ui::adapters::color::{parse_hex, project_colors, Rgb};
use flequit_ui::adapters::datetime::DateTimeParts;
use flequit_ui::adapters::datetime_input::{parse_datetime_input, DateTimeInput};
use flequit_ui::adapters::project::short_label;
use flequit_ui::adapters::task::{to_priority, TaskPriority};
use flequit_ui::viewmodels::app::{
    next_order_index, next_subtask_order, priority_value, task_boundary_index,
    task_selection_index, EditDebouncer,
};
use flequit_ui::viewmodels::project_editor;
use flequit_ui::viewmodels::reload_gate::ReloadGate;
use flequit_ui::viewmodels::tag_editor;
use flequit_ui::viewmodels::task_list_ui::TaskListUiViewModel;

fn reference() -> DateTimeParts {
    DateTimeParts {
        year: 2026,
        month: 9,
        day: 8,
        hour: 10,
        minute: 30,
    }
}

fn parse(input: &str) -> Option<DateTimeInput> {
    parse_datetime_input(input, reference())
}

#[test]
fn every_common_date_separator_reads_the_same() {
    for input in ["2026/9/15", "2026-9-15", "2026.09.15", "2026年9月15日"] {
        let parsed = parse(input).unwrap_or_else(|| panic!("{input} should parse"));
        assert_eq!((parsed.year, parsed.month, parsed.day), (2026, 9, 15));
        assert!(!parsed.has_time, "{input} carries no time");
    }
}

#[test]
fn a_time_is_recognised_next_to_the_date() {
    for input in [
        "2026/9/15 13:30",
        "2026-09-15T13:30",
        "2026年9月15日 13時30分",
    ] {
        let parsed = parse(input).unwrap_or_else(|| panic!("{input} should parse"));
        assert_eq!((parsed.year, parsed.month, parsed.day), (2026, 9, 15));
        assert_eq!((parsed.hour, parsed.minute), (13, 30));
        assert!(parsed.has_time);
    }
}

#[test]
fn a_date_without_a_time_keeps_the_time_it_was_given() {
    let parsed = parse("2026/9/15").expect("a bare date parses");

    assert_eq!((parsed.hour, parsed.minute), (10, 30));
    assert!(!parsed.has_time);
}

#[test]
fn the_reference_fills_in_what_was_left_out() {
    let month_and_day = parse("9/15").expect("a month and a day parse");
    assert_eq!(
        (month_and_day.year, month_and_day.month, month_and_day.day),
        (2026, 9, 15)
    );

    let day_only = parse("15").expect("a bare day parses");
    assert_eq!((day_only.year, day_only.month, day_only.day), (2026, 9, 15));
}

#[test]
fn digits_without_separators_are_read_by_length() {
    assert_eq!(
        parse("20260915").map(|parsed| (parsed.year, parsed.month, parsed.day)),
        Some((2026, 9, 15))
    );
    assert_eq!(
        parse("260915").map(|parsed| (parsed.year, parsed.month, parsed.day)),
        Some((2026, 9, 15))
    );
    assert_eq!(
        parse("0915").map(|parsed| (parsed.year, parsed.month, parsed.day)),
        Some((2026, 9, 15))
    );
}

#[test]
fn full_width_digits_from_an_ime_are_accepted() {
    let parsed = parse("２０２６／９／１５　１３：３０").expect("full-width input parses");

    assert_eq!((parsed.year, parsed.month, parsed.day), (2026, 9, 15));
    assert_eq!((parsed.hour, parsed.minute), (13, 30));
}

#[test]
fn a_date_that_does_not_exist_is_rejected() {
    assert_eq!(parse("2026/2/30"), None);
    assert_eq!(parse("2026/13/1"), None);
}

#[test]
fn an_impossible_time_is_rejected() {
    assert_eq!(parse("2026/9/15 25:00"), None);
    assert_eq!(parse("2026/9/15 12:70"), None);
}

#[test]
fn text_that_is_not_a_date_is_rejected() {
    assert_eq!(parse(""), None);
    assert_eq!(parse("   "), None);
    assert_eq!(parse("tomorrow"), None);
    assert_eq!(parse("2026/9/x5"), None);
}

#[test]
fn leap_days_and_overflowing_numbers_follow_the_calendar() {
    assert!(parse("2024/2/29").is_some());
    assert_eq!(parse("2023/2/29"), None);
    assert_eq!(parse("2026/9/99999999999"), None);
    assert_eq!(
        parse("1/2/3").map(|parsed| (parsed.year, parsed.month, parsed.day)),
        Some((2001, 2, 3))
    );
    assert_eq!(parse("2026/9/15 7"), None);
    assert_eq!(
        parse("2026/9/15 7:05:59").map(|parsed| (parsed.hour, parsed.minute)),
        Some((7, 5))
    );
}

#[test]
fn short_label_ignores_surrounding_whitespace() {
    assert_eq!(short_label("  Work  "), "Wo");
}

#[test]
fn short_label_handles_names_shorter_than_the_limit() {
    assert_eq!(short_label("A"), "A");
}

#[test]
fn short_label_counts_characters_not_bytes() {
    assert_eq!(short_label("プロジェクト"), "プロ");
    assert_eq!(short_label(""), "?");
    assert_eq!(short_label("   "), "?");
}

#[test]
fn priority_buckets_cover_the_whole_range() {
    assert_eq!(to_priority(-5), TaskPriority::Unset);
    assert_eq!(to_priority(2), TaskPriority::Low);
    assert_eq!(to_priority(4), TaskPriority::Medium);
    assert_eq!(to_priority(100), TaskPriority::High);
}

#[test]
fn every_palette_entry_parses() {
    for value in project_colors() {
        assert!(parse_hex(value).is_some(), "{value} is not a valid colour");
    }
}

#[test]
fn the_channels_are_read_in_order() {
    let color = parse_hex("#0a1422").expect("a valid colour");

    assert_eq!(
        (color.red, color.green, color.blue),
        (0x0a, 0x14, 0x22)
    );
}

#[test]
fn malformed_values_are_rejected() {
    for value in ["", "#", "#12345", "#1234567", "#gggggg", "4c6ef5"] {
        assert!(parse_hex(value).is_none(), "{value} should not parse");
    }
}

#[test]
fn a_hex_colour_ignores_case_and_whitespace() {
    assert_eq!(
        parse_hex("  #4C6EF5 "),
        Some(Rgb { red: 0x4c, green: 0x6e, blue: 0xf5 })
    );
    assert!(parse_hex("#fff").is_none());
    assert!(parse_hex("blue").is_none());
}

#[test]
fn project_editor_a_blank_name_is_rejected() {
    assert_eq!(project_editor::validated_name("   "), None);
    assert_eq!(project_editor::validated_name(""), None);
    assert_eq!(project_editor::validated_name("  Work "), Some("Work".to_string()));
}

#[test]
fn project_editor_a_palette_colour_survives_validation() {
    assert_eq!(
        project_editor::validated_color("#4c6ef5"),
        Some("#4c6ef5".to_string())
    );
    assert_eq!(
        project_editor::validated_color("  #4c6ef5  "),
        Some("#4c6ef5".to_string())
    );
}

#[test]
fn project_editor_anything_that_is_not_a_colour_becomes_none() {
    for raw in ["", "blue", "#12345"] {
        assert_eq!(project_editor::validated_color(raw), None);
    }
}

#[test]
fn tag_editor_a_blank_name_is_rejected() {
    for raw in ["", " ", "\t\n"] {
        assert_eq!(tag_editor::validated_name(raw), None);
    }
}

#[test]
fn a_name_that_would_not_survive_the_search_box_is_rejected() {
    for raw in ["two words", "a\tb", "\u{3000}"] {
        assert_eq!(tag_editor::validated_name(raw), None, "{raw:?} should be rejected");
    }
}

#[test]
fn surrounding_whitespace_is_trimmed_rather_than_rejected() {
    assert_eq!(tag_editor::validated_name("  home\n"), Some("home".to_string()));
}

#[test]
fn tag_editor_a_palette_colour_survives_validation() {
    assert_eq!(tag_editor::validated_color("#4c6ef5"), Some("#4c6ef5".to_string()));
    assert_eq!(tag_editor::validated_color("  #4c6ef5  "), Some("#4c6ef5".to_string()));
}

#[test]
fn tag_editor_anything_that_is_not_a_colour_becomes_none() {
    for raw in ["", "blue", "#12345"] {
        assert_eq!(tag_editor::validated_color(raw), None);
    }
}

#[test]
fn first_request_runs() {
    let mut gate = ReloadGate::default();
    assert!(gate.begin());
    assert!(!gate.finish());
}

#[test]
fn request_during_a_reload_is_served_once_afterwards() {
    let mut gate = ReloadGate::default();
    assert!(gate.begin());

    assert!(!gate.begin());
    assert!(!gate.begin());
    assert!(!gate.begin());

    assert!(gate.finish());
    assert!(!gate.finish());
}

#[test]
fn the_gate_is_reusable_after_it_drains() {
    let mut gate = ReloadGate::default();
    assert!(gate.begin());
    assert!(!gate.finish());

    assert!(gate.begin());
    assert!(!gate.begin());
    assert!(gate.finish());
    assert!(!gate.finish());
}

#[test]
fn toggle_reports_the_resulting_state() {
    let mut ui = TaskListUiViewModel::new();
    assert!(ui.toggle("t1"));
    assert!(ui.is_expanded("t1"));
    assert!(!ui.toggle("t1"));
    assert!(!ui.is_expanded("t1"));
}

#[test]
fn expanding_twice_is_idempotent() {
    let mut ui = TaskListUiViewModel::new();
    ui.expand("t1");
    ui.expand("t1");
    ui.collapse("t1");
    assert!(!ui.is_expanded("t1"));
}

#[test]
fn reset_clears_everything() {
    let mut ui = TaskListUiViewModel::new();
    ui.expand("a");
    ui.expand("b");
    ui.reset();
    assert!(!ui.is_expanded("a"));
    assert!(!ui.is_expanded("b"));
}

#[test]
fn rows_expand_independently() {
    let mut ui = TaskListUiViewModel::default();
    ui.expand("a");
    ui.expand("b");
    ui.collapse("a");
    assert!(!ui.is_expanded("a"));
    assert!(ui.is_expanded("b"));
}

#[test]
fn edit_debouncer_keeps_first_snapshot_and_only_releases_latest_revision() {
    let mut debouncer = EditDebouncer::default();

    let first = debouncer.schedule("task-1".to_string(), "before".to_string());
    let latest = debouncer.schedule("task-1".to_string(), "intermediate".to_string());

    assert_eq!(debouncer.take_if_latest("task-1", first), None);
    assert_eq!(
        debouncer.take_if_latest("task-1", latest),
        Some("before".to_string())
    );
    assert_eq!(debouncer.take_if_latest("task-1", latest), None);
}

#[test]
fn edits_of_different_rows_are_kept_apart() {
    let mut debouncer = EditDebouncer::new();
    let a = debouncer.schedule("a".to_string(), 1);
    let b = debouncer.schedule("b".to_string(), 2);
    assert_eq!((a, b), (1, 1));
    assert_eq!(debouncer.take_if_latest("b", b), Some(2));
    assert_eq!(debouncer.take_if_latest("a", a), Some(1));
    assert_eq!(debouncer.take_if_latest("c", 1), None);
}

#[test]
fn keyboard_task_navigation_stays_in_bounds() {
    assert_eq!(task_selection_index(0, None, 1), None);
    assert_eq!(task_selection_index(3, None, 1), Some(0));
    assert_eq!(task_selection_index(3, None, -1), Some(2));
    assert_eq!(task_selection_index(3, Some(0), -1), Some(0));
    assert_eq!(task_selection_index(3, Some(1), 1), Some(2));
    assert_eq!(task_selection_index(3, Some(2), 1), Some(2));
    assert_eq!(task_boundary_index(0, true), None);
    assert_eq!(task_boundary_index(3, true), Some(0));
    assert_eq!(task_boundary_index(3, false), Some(2));
}

#[test]
fn a_large_jump_stops_at_either_end() {
    assert_eq!(task_selection_index(5, Some(2), i32::MIN), Some(0));
    assert_eq!(task_selection_index(5, Some(2), i32::MAX), Some(4));
    assert_eq!(task_selection_index(5, Some(usize::MAX), 1), Some(4));
}

#[test]
fn a_new_subtask_follows_the_highest_existing_order() {
    assert_eq!(next_subtask_order(&[2, 7, 4]), 8);
    assert_eq!(next_subtask_order(&[]), 0);
    assert_eq!(next_subtask_order(&[i32::MAX]), i32::MAX);
}

#[test]
fn a_new_tree_item_follows_the_highest_existing_order() {
    assert_eq!(next_order_index(&[2, 7, 4]), 8);
    assert_eq!(next_order_index(&[]), 0);
    assert_eq!(next_order_index(&[i32::MAX]), i32::MAX);
}

#[test]
fn ui_priorities_map_to_domain_bucket_values() {
    assert_eq!(priority_value(TaskPriority::Unset), 0);
    assert_eq!(priority_value(TaskPriority::Low), 1);
    assert_eq!(priority_value(TaskPriority::Medium), 3);
    assert_eq!(priority_value(TaskPriority::High), 6);
}

#[test]
fn an_error_shows_its_stable_code() {
    let err = UiError::domain("task.save-failed", "connection reset");
    assert_eq!(err.code(), "task.save-failed");
    assert_eq!(UiError::Platform("no display".to_string()).code(), "platform.failed");
    assert_eq!(UiError::MalformedId("x".to_string()).code(), "input.malformed-id");
}

#[test]
fn a_due_date_in_the_future_is_not_overdue() {
    use_overdue_rules();
}

fn use_overdue_rules() {
    let at = |y: i32, m: u32, d: u32| {
        chrono::TimeZone::with_ymd_and_hms(&chrono::Utc, y, m, d, 0, 0, 0)
            .unwrap()
            .timestamp() as i128
            * 1_000_000_000
    };
    let now = at(2026, 1, 1);
    let due = at(2026, 6, 1);
    assert!(!flequit_ui::adapters::datetime::is_overdue(Some(due), false, now));
    assert!(flequit_ui::adapters::datetime::is_overdue(Some(at(2025, 12, 31)), false, now));
    assert!(!flequit_ui::adapters::datetime::is_overdue(Some(at(2025, 12, 31)), true, now));
    assert!(!flequit_ui::adapters::datetime::is_overdue(None, false, now));
}

#[test]
fn an_empty_format_falls_back_to_the_default() {
    assert_eq!(flequit_ui::adapters::datetime::effective_format(""), "%Y-%m-%d %H:%M");
    assert_eq!(flequit_ui::adapters::datetime::effective_format("%H:%M"), "%H:%M");
}

#[test]
fn a_colour_channel_is_exactly_two_hex_digits() {
    assert_eq!(parse_hex("#+f+f+f"), None);
    assert_eq!(project_editor::validated_color("#+f+f+f"), None);
    assert_eq!(tag_editor::validated_color("#+1+2+3"), None);
    assert_eq!(
        parse_hex(" #0A0b0C "),
        Some(Rgb { red: 10, green: 11, blue: 12 })
    );
}

#[test]
fn a_colour_with_wide_chars_is_refused_without_panicking() {
    assert_eq!(parse_hex("#ああ"), None);
    assert_eq!(parse_hex("#ああああああ"), None);
    assert_eq!(project_editor::validated_color("#ああ"), None);
    assert_eq!(tag_editor::validated_color("#１２３４５６"), None);
}

#[test]
fn any_number_of_refused_requests_costs_one_more_reload() {
    for refused in 0..5 {
        let mut gate = ReloadGate::default();
        assert!(gate.begin());
        for _ in 0..refused {
            assert!(!gate.begin());
        }
        let again = gate.finish();
        assert_eq!(again, refused >= 1);
        if again {
            assert!(!gate.finish());
        }
        assert!(gate.begin());
    }
}
