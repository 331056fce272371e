use flequit_ui::settings::navigation::search_settings;
use flequit_ui::settings::timezone::timezone_options;
use flequit_ui::settings::edits::{
    add_custom_due_filter, add_datetime_format, add_datetime_format_with_id, add_recurrence_preset,
    datetime_format_index, delete_datetime_format, has_order_room, overwrite_datetime_format,
    select_datetime_format, set_timezone, add_reminder_preset, remove_custom_due_filter,
    remove_recurrence_preset, remove_reminder_preset, rename_custom_due_filter, rename_due_button,
    rename_recurrence_preset, rename_reminder_preset, set_due_button_visible, set_font_size,
    set_language, set_week_start, MAX_SAVED,
};
use flequit_ui::settings::model::{
    CustomDueFilter, CustomDueUnit, DateTimeFormatKind, RecurrencePreset, RecurrenceUnit, ReminderPreset, ReminderUnit,
    UserSettings,
};

fn custom_pairs(settings: &UserSettings) -> Vec<(CustomDueUnit, i32, String)> {
    settings
        .custom_due_filters
        .iter()
        .map(|f| (f.unit, f.value, f.name.clone()))
        .collect()
}

#[test]
fn added_custom_filters_are_listed_in_unit_then_value_order() {
    let mut settings = UserSettings::default();
    add_custom_due_filter(&mut settings, CustomDueFilter::new(3, CustomDueUnit::Day));
    add_custom_due_filter(&mut settings, CustomDueFilter::new(30, CustomDueUnit::Minute));
    add_custom_due_filter(&mut settings, CustomDueFilter::new(1, CustomDueUnit::Day));
    add_custom_due_filter(&mut settings, CustomDueFilter::new(2, CustomDueUnit::Hour));

    assert_eq!(
        custom_pairs(&settings),
        vec![
            (CustomDueUnit::Minute, 30, String::new()),
            (CustomDueUnit::Hour, 2, String::new()),
            (CustomDueUnit::Day, 1, String::new()),
            (CustomDueUnit::Day, 3, String::new()),
        ]
    );
}

#[test]
fn a_custom_filter_with_the_same_unit_and_value_is_not_added_twice() {
    let mut settings = UserSettings::default();
    add_custom_due_filter(
        &mut settings,
        CustomDueFilter::named(5, CustomDueUnit::Day, "first".to_string()),
    );
    add_custom_due_filter(
        &mut settings,
        CustomDueFilter::named(5, CustomDueUnit::Day, "second".to_string()),
    );

    assert_eq!(
        custom_pairs(&settings),
        vec![(CustomDueUnit::Day, 5, "first".to_string())]
    );
}

#[test]
fn an_invalid_custom_filter_is_not_added() {
    let mut settings = UserSettings::default();
    add_custom_due_filter(&mut settings, CustomDueFilter::new(0, CustomDueUnit::Day));
    add_custom_due_filter(&mut settings, CustomDueFilter::new(3_651, CustomDueUnit::Day));

    assert!(settings.custom_due_filters.is_empty());
}

#[test]
fn a_full_list_takes_no_more_custom_filters() {
    let mut settings = UserSettings::default();
    for value in 1..=25 {
        add_custom_due_filter(&mut settings, CustomDueFilter::new(value, CustomDueUnit::Minute));
    }

    assert_eq!(settings.custom_due_filters.len(), MAX_SAVED);
    assert_eq!(settings.custom_due_filters[MAX_SAVED - 1].value, 20);
}

#[test]
fn renaming_a_custom_filter_keeps_its_place_and_identity() {
    let mut settings = UserSettings::default();
    add_custom_due_filter(&mut settings, CustomDueFilter::new(1, CustomDueUnit::Hour));
    add_custom_due_filter(&mut settings, CustomDueFilter::new(2, CustomDueUnit::Hour));

    rename_custom_due_filter(
        &mut settings,
        CustomDueFilter::named(2, CustomDueUnit::Hour, "soon".to_string()),
    );
    rename_custom_due_filter(
        &mut settings,
        CustomDueFilter::named(9, CustomDueUnit::Hour, "missing".to_string()),
    );

    assert_eq!(
        custom_pairs(&settings),
        vec![
            (CustomDueUnit::Hour, 1, String::new()),
            (CustomDueUnit::Hour, 2, "soon".to_string()),
        ]
    );
}

#[test]
fn removing_a_custom_filter_ignores_its_name() {
    let mut settings = UserSettings::default();
    add_custom_due_filter(&mut settings, CustomDueFilter::new(1, CustomDueUnit::Hour));
    add_custom_due_filter(
        &mut settings,
        CustomDueFilter::named(2, CustomDueUnit::Hour, "two".to_string()),
    );

    remove_custom_due_filter(&mut settings, &CustomDueFilter::new(2, CustomDueUnit::Hour));

    assert_eq!(
        custom_pairs(&settings),
        vec![(CustomDueUnit::Hour, 1, String::new())]
    );
}

#[test]
fn recurrence_presets_are_added_in_period_order_and_removed_by_pattern() {
    let mut settings = UserSettings::default();
    add_recurrence_preset(&mut settings, RecurrencePreset::new(2, RecurrenceUnit::Week));
    add_recurrence_preset(&mut settings, RecurrencePreset::new(1, RecurrenceUnit::Day));
    add_recurrence_preset(&mut settings, RecurrencePreset::new(1, RecurrenceUnit::Year));
    add_recurrence_preset(&mut settings, RecurrencePreset::new(1_000, RecurrenceUnit::Day));

    let listed: Vec<(RecurrenceUnit, i32)> = settings
        .recurrence_presets
        .iter()
        .map(|p| (p.unit, p.interval))
        .collect();
    assert_eq!(
        listed,
        vec![
            (RecurrenceUnit::Day, 1),
            (RecurrenceUnit::Week, 2),
            (RecurrenceUnit::Year, 1)
        ]
    );

    rename_recurrence_preset(
        &mut settings,
        RecurrencePreset::named(2, RecurrenceUnit::Week, "fortnight".to_string()),
    );
    assert_eq!(settings.recurrence_presets[1].name, "fortnight");

    remove_recurrence_preset(&mut settings, &RecurrencePreset::new(1, RecurrenceUnit::Day));
    assert_eq!(settings.recurrence_presets.len(), 2);
    assert_eq!(settings.recurrence_presets[0].unit, RecurrenceUnit::Week);
}

#[test]
fn reminder_presets_are_listed_by_lead_time() {
    let mut settings = UserSettings::default();
    // The defaults are 30 minutes, 1 hour and 1 day before.
    add_reminder_preset(&mut settings, ReminderPreset::new(90, ReminderUnit::Minute));
    add_reminder_preset(&mut settings, ReminderPreset::new(2, ReminderUnit::Hour));

    let listed: Vec<(ReminderUnit, i32)> = settings
        .reminder_presets
        .iter()
        .map(|p| (p.unit, p.value))
        .collect();
    assert_eq!(
        listed,
        vec![
            (ReminderUnit::Minute, 30),
            (ReminderUnit::Hour, 1),
            (ReminderUnit::Minute, 90),
            (ReminderUnit::Hour, 2),
            (ReminderUnit::Day, 1),
        ]
    );

    rename_reminder_preset(
        &mut settings,
        ReminderPreset::named(1, ReminderUnit::Day, "eve".to_string()),
    );
    assert_eq!(settings.reminder_presets[4].name, "eve");

    remove_reminder_preset(&mut settings, &ReminderPreset::new(30, ReminderUnit::Minute));
    assert_eq!(settings.reminder_presets.len(), 4);
    assert_eq!(settings.reminder_presets[0].value, 1);
}

#[test]
fn a_due_button_is_shown_hidden_and_renamed_by_key() {
    let mut settings = UserSettings::default();
    let overdue = settings
        .due_buttons
        .iter()
        .position(|b| b.key == "overdue")
        .unwrap();
    assert!(!settings.due_buttons[overdue].visible);

    set_due_button_visible(&mut settings, "overdue", true);
    rename_due_button(&mut settings, "overdue", "  Late  ");
    set_due_button_visible(&mut settings, "no-such-button", true);

    let button = &settings.due_buttons[overdue];
    assert!(button.visible);
    assert_eq!(button.name, "Late");
    assert_eq!(button.key, "overdue");
    assert_eq!(button.query, "@overdue");
}

#[test]
fn only_sunday_or_monday_starts_the_week() {
    let mut settings = UserSettings::default();
    assert!(set_week_start(&mut settings, "monday".to_string()));
    assert_eq!(settings.week_start, "monday");
    assert!(!set_week_start(&mut settings, "friday".to_string()));
    assert_eq!(settings.week_start, "monday");
}

#[test]
fn font_sizes_outside_eight_to_seventy_two_are_refused() {
    let mut settings = UserSettings::default();
    assert!(set_font_size(&mut settings, 8));
    assert!(set_font_size(&mut settings, 72));
    assert!(!set_font_size(&mut settings, 7));
    assert!(!set_font_size(&mut settings, 73));
    assert_eq!(settings.font_size, 72);
}

#[test]
fn the_language_is_set_only_to_a_bundled_catalogue() {
    let mut settings = UserSettings::default();
    assert_eq!(set_language(&mut settings, "ja_JP.UTF-8"), Some("ja"));
    assert_eq!(settings.language, "ja");
    assert_eq!(set_language(&mut settings, "xx"), None);
    assert_eq!(settings.language, "ja");
}

#[test]
fn timezone_options_offer_the_shorthands_first_and_match_ignoring_case() {
    let zones = vec![
        "Asia/Tokyo".to_string(),
        "Europe/London".to_string(),
        "America/New_York".to_string(),
    ];

    assert_eq!(
        timezone_options(&zones, ""),
        ["system", "UTC", "Asia/Tokyo", "Europe/London", "America/New_York"]
    );
    assert_eq!(timezone_options(&zones, "  TOKYO "), ["Asia/Tokyo"]);
    assert_eq!(timezone_options(&zones, "u"), ["UTC", "Europe/London"]);
    assert!(timezone_options(&zones, "mars").is_empty());
}

#[test]
fn a_settings_search_folds_the_query_and_keeps_matching_sections() {
    let found = search_settings("  FONT ", "Language Week", "Time zone", "Theme Font size", "Account");

    assert_eq!(found.query, "font");
    assert!(!found.show_basic);
    assert!(!found.show_date_time);
    assert!(found.show_appearance);
    assert!(!found.show_account);

    let all = search_settings("", "a", "b", "c", "d");
    assert!(all.show_basic && all.show_date_time && all.show_appearance && all.show_account);
}

fn formats(settings: &UserSettings) -> Vec<(String, String, String, i32)> {
    settings
        .datetime_formats
        .iter()
        .map(|f| (f.id.clone(), f.name.clone(), f.format.clone(), f.order))
        .collect()
}

#[test]
fn a_new_datetime_format_comes_after_the_others_and_is_selected() {
    let mut settings = UserSettings::default();
    assert!(add_datetime_format_with_id(&mut settings, "  mine  ", "%H:%M", "a"));
    assert!(add_datetime_format_with_id(&mut settings, "second", "%d", "b"));

    assert_eq!(
        formats(&settings),
        vec![
            ("a".to_string(), "mine".to_string(), "%H:%M".to_string(), 100),
            ("b".to_string(), "second".to_string(), "%d".to_string(), 101),
        ]
    );
    assert_eq!(settings.datetime_format.id, "b");
    assert_eq!(settings.datetime_format.kind, DateTimeFormatKind::CustomFormat);
}

#[test]
fn a_datetime_format_needs_a_name_and_a_free_id() {
    let mut settings = UserSettings::default();
    assert!(!add_datetime_format_with_id(&mut settings, "   ", "%H", "a"));
    assert!(add_datetime_format_with_id(&mut settings, "one", "%H", "a"));
    assert!(!add_datetime_format_with_id(&mut settings, "two", "%M", "a"));
    assert_eq!(settings.datetime_formats.len(), 1);
    assert!(!add_datetime_format(&mut settings, " ", "%M"));
}

#[test]
fn a_datetime_format_added_with_a_random_id_gets_a_fresh_one() {
    let mut settings = UserSettings::default();
    assert!(add_datetime_format(&mut settings, "one", "%H"));
    assert!(add_datetime_format(&mut settings, "two", "%M"));
    assert_eq!(settings.datetime_formats.len(), 2);
    assert_ne!(settings.datetime_formats[0].id, settings.datetime_formats[1].id);
    assert_eq!(settings.datetime_formats[0].id.len(), 36);
    assert!(has_order_room(&settings));
}

#[test]
fn overwriting_a_datetime_format_keeps_its_id_and_order_and_selects_it() {
    let mut settings = UserSettings::default();
    add_datetime_format_with_id(&mut settings, "one", "%H", "a");
    add_datetime_format_with_id(&mut settings, "two", "%M", "b");

    assert!(overwrite_datetime_format(&mut settings, "a", " uno ", "%H!"));
    assert!(!overwrite_datetime_format(&mut settings, "zz", "x", "%H"));
    assert!(!overwrite_datetime_format(&mut settings, "b", "  ", "%H"));

    assert_eq!(
        formats(&settings)[0],
        ("a".to_string(), "uno".to_string(), "%H!".to_string(), 100)
    );
    assert_eq!(settings.datetime_format.id, "a");
    assert_eq!(settings.datetime_format.format, "%H!");
}

#[test]
fn deleting_the_selected_datetime_format_falls_back_to_the_default() {
    let mut settings = UserSettings::default();
    add_datetime_format_with_id(&mut settings, "one", "%H", "a");
    add_datetime_format_with_id(&mut settings, "two", "%M", "b");

    delete_datetime_format(&mut settings, "a");
    assert_eq!(settings.datetime_format.id, "b");
    delete_datetime_format(&mut settings, "b");
    assert!(settings.datetime_formats.is_empty());
    assert_eq!(settings.datetime_format.id, "-1");
    assert_eq!(settings.datetime_format.name, "default");
}

#[test]
fn selecting_a_pattern_picks_the_offered_format_or_the_custom_slot() {
    let mut settings = UserSettings::default();
    add_datetime_format_with_id(&mut settings, "mine", "%H:%M", "a");

    select_datetime_format(&mut settings, "%m/%d/%Y %H:%M:%S");
    assert_eq!(settings.datetime_format.id, "en-0");
    select_datetime_format(&mut settings, "%H:%M");
    assert_eq!(settings.datetime_format.id, "a");
    select_datetime_format(&mut settings, "%y");
    assert_eq!(settings.datetime_format.id, "-2");
    assert_eq!(settings.datetime_format.format, "%y");
    assert_eq!(settings.datetime_format.order, 40);
}

#[test]
fn the_format_index_counts_the_built_ins_first_and_falls_back_to_four() {
    let mut settings = UserSettings::default();
    add_datetime_format_with_id(&mut settings, "mine", "%H:%M", "a");

    assert_eq!(datetime_format_index(&settings.datetime_formats, ""), 0);
    assert_eq!(datetime_format_index(&settings.datetime_formats, "%Y-%m-%dT%H:%M:%S%:z"), 3);
    assert_eq!(datetime_format_index(&settings.datetime_formats, "%H:%M"), 5);
    assert_eq!(datetime_format_index(&settings.datetime_formats, "%q"), 4);
}

#[test]
fn a_blank_timezone_is_not_stored() {
    let mut settings = UserSettings::default();
    assert!(set_timezone(&mut settings, "  Asia/Tokyo "));
    assert_eq!(settings.timezone, "Asia/Tokyo");
    assert!(!set_timezone(&mut settings, "   "));
    assert_eq!(settings.timezone, "Asia/Tokyo");
}

#[test]
fn a_new_format_follows_the_highest_stored_order_even_below_one_hundred() {
    let mut settings = UserSettings::default();
    settings.datetime_formats.push(flequit_ui::settings::model::DateTimeFormatPreference {
        id: "x".to_string(),
        name: "low".to_string(),
        format: "%H".to_string(),
        kind: DateTimeFormatKind::CustomFormat,
        order: 1,
    });
    assert!(add_datetime_format_with_id(&mut settings, "next", "%M", "y"));
    assert_eq!(settings.datetime_formats[1].order, 2);
}
