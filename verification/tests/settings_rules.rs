use flequit_ui::settings::font::{filter, FontCatalogue};
use flequit_ui::settings::locale::{resolve_locale, supported};
use flequit_ui::settings::model::{
    builtin_due_filter_table, clean_name, CustomDueFilter, CustomDueUnit, DateTimeFormatKind,
    DateTimeFormatPreference, DueButtonPreference, RecurrencePreset, RecurrenceUnit,
    ReminderPreset, ReminderUnit, SettingsModel, SettingsStoreError, UserSettings, MAX_NAME_CHARS,
};

fn families() -> Vec<String> {
    vec![
        "DejaVu Sans".to_string(),
        "Noto Sans CJK JP".to_string(),
        "Noto Serif".to_string(),
    ]
}

#[test]
fn an_empty_query_lists_the_built_ins_first() {
    let matches = filter(&families(), "");

    assert_eq!(matches[0], "default");
    assert_eq!(matches[1], "system");
    assert_eq!(matches.len(), 5);
}

#[test]
fn matching_ignores_case_and_position() {
    assert_eq!(filter(&families(), "NOTO").len(), 2);
    assert_eq!(filter(&families(), "cjk"), ["Noto Sans CJK JP"]);
}

#[test]
fn a_query_matching_nothing_returns_nothing() {
    assert!(filter(&families(), "comic sans").is_empty());
}

#[test]
fn the_catalogue_hands_back_what_was_stored() {
    let mut catalogue = FontCatalogue::default();
    catalogue.replace(families());

    assert_eq!(catalogue.snapshot(), families());
}

#[test]
fn a_query_is_trimmed_and_the_built_ins_match_too() {
    assert_eq!(filter(&families(), "  sys "), ["system"]);
    assert_eq!(filter(&families(), "serif"), ["Noto Serif"]);
}

#[test]
fn a_stored_language_wins_over_the_system_one() {
    assert_eq!(resolve_locale("en", Some("ja_JP.UTF-8")), "en");
}

#[test]
fn an_unsupported_language_falls_through_to_the_system_locale() {
    assert_eq!(resolve_locale("de", Some("ja_JP.UTF-8")), "ja");
}

#[test]
fn everything_unsupported_lands_on_the_base_language() {
    assert_eq!(resolve_locale("", None), "en");
    assert_eq!(resolve_locale("zz", Some("xx_YY")), "en");
}

#[test]
fn region_and_encoding_suffixes_are_ignored() {
    assert_eq!(supported("ja_JP.UTF-8"), Some("ja"));
    assert_eq!(supported("en-GB"), Some("en"));
    assert_eq!(supported("JA"), Some("ja"));
    assert_eq!(supported("ja@calendar=japanese"), Some("ja"));
}

#[test]
fn an_empty_locale_matches_nothing() {
    assert_eq!(supported(""), None);
    assert_eq!(supported("  "), None);
}

#[test]
fn normalize_fills_defaults_and_sanitizes_custom_due_filters() {
    let settings = UserSettings {
        due_buttons: vec![DueButtonPreference {
            key: "today".to_string(),
            query: "@today".to_string(),
            visible: false,
            name: "  きょう  ".to_string(),
        }],
        custom_due_filters: vec![
            CustomDueFilter::new(5, CustomDueUnit::Day),
            CustomDueFilter::new(-1, CustomDueUnit::Day),
            CustomDueFilter::new(5, CustomDueUnit::Day),
            CustomDueFilter::new(4000, CustomDueUnit::Day),
            CustomDueFilter::new(2, CustomDueUnit::Day),
            CustomDueFilter::new(90, CustomDueUnit::Minute),
            // Out of range for hours, so it is dropped like the 4000-day one.
            CustomDueFilter::new(9000, CustomDueUnit::Hour),
        ],
        ..UserSettings::default()
    }
    .normalize();

    assert_eq!(settings.due_buttons.len(), builtin_due_filter_table().len());
    assert!(!settings.due_buttons[1].visible);
    assert_eq!(settings.due_buttons[1].name, "きょう", "names are trimmed");
    assert_eq!(
        settings.custom_due_filters,
        [
            CustomDueFilter::new(90, CustomDueUnit::Minute),
            CustomDueFilter::new(2, CustomDueUnit::Day),
            CustomDueFilter::new(5, CustomDueUnit::Day),
        ],
        "invalid entries are dropped and the rest sort shortest horizon first"
    );
}

#[test]
fn filters_differing_only_by_name_are_one_filter() {
    let long_name = "あ".repeat(60);
    let settings = UserSettings {
        custom_due_filters: vec![
            CustomDueFilter::named(90, CustomDueUnit::Day, "今期".to_string()),
            CustomDueFilter::named(90, CustomDueUnit::Day, "今Q".to_string()),
            CustomDueFilter::named(3, CustomDueUnit::Day, long_name),
        ],
        ..UserSettings::default()
    }
    .normalize();

    assert_eq!(settings.custom_due_filters.len(), 2);
    assert_eq!(
        settings.custom_due_filters[1].name, "今期",
        "the first name written wins"
    );
    assert_eq!(
        settings.custom_due_filters[0].name.chars().count(),
        MAX_NAME_CHARS
    );
}

#[test]
fn normalize_keeps_only_custom_datetime_formats_in_order() {
    let settings = UserSettings {
        datetime_formats: vec![
            DateTimeFormatPreference {
                id: "second".to_string(),
                name: "Second".to_string(),
                format: "%Y".to_string(),
                kind: DateTimeFormatKind::CustomFormat,
                order: 2,
            },
            DateTimeFormatPreference::default(),
            DateTimeFormatPreference {
                id: "first".to_string(),
                name: "First".to_string(),
                format: "%m".to_string(),
                kind: DateTimeFormatKind::CustomFormat,
                order: 1,
            },
        ],
        ..UserSettings::default()
    }
    .normalize();

    assert_eq!(
        settings
            .datetime_formats
            .iter()
            .map(|format| format.id.as_str())
            .collect::<Vec<_>>(),
        ["first", "second"]
    );
}

#[test]
fn rollback_restores_the_last_persisted_revision() {
    let original = UserSettings::default();
    let mut model = SettingsModel::new(original.clone());

    let mut edited = model.current.clone();
    edited.week_start = "monday".to_string();
    let (first, first_revision) = model
        .update(edited)
        .expect("the first update should change state");
    model.mark_persisted(first);
    let mut edited = model.current.clone();
    edited.font_size = 20;
    let (_, second_revision) = model
        .update(edited)
        .expect("the second update should change state");

    assert!(model.rollback_if_current(first_revision).is_none());
    let rolled_back = model
        .rollback_if_current(second_revision)
        .expect("the current failed revision should roll back");
    assert_eq!(rolled_back.week_start, "monday");
    assert_eq!(rolled_back.font_size, original.font_size);
}

#[test]
fn reminder_choices_are_sanitized_without_restoring_deleted_defaults() {
    let settings = UserSettings {
        reminder_presets: vec![
            ReminderPreset::new(2, ReminderUnit::Day),
            ReminderPreset::new(90, ReminderUnit::Minute),
            ReminderPreset::new(1, ReminderUnit::Hour),
            ReminderPreset::new(2, ReminderUnit::Day),
            ReminderPreset::new(0, ReminderUnit::Minute),
            ReminderPreset::new(3651, ReminderUnit::Day),
        ],
        ..UserSettings::default()
    }
    .normalize();
    assert_eq!(
        settings.reminder_presets,
        [
            ReminderPreset::new(1, ReminderUnit::Hour),
            ReminderPreset::new(90, ReminderUnit::Minute),
            ReminderPreset::new(2, ReminderUnit::Day),
        ]
    );
    let mut model = SettingsModel::new(settings.clone());
    let mut edited = model.current.clone();
    edited.reminder_presets.clear();
    let (_, revision) = model.update(edited).unwrap();
    assert!(
        model
            .current
            .clone()
            .normalize()
            .reminder_presets
            .is_empty()
    );
    assert_eq!(
        model
            .rollback_if_current(revision)
            .unwrap()
            .reminder_presets,
        settings.reminder_presets
    );
}

#[test]
fn an_unchanged_update_gets_no_revision() {
    let mut model = SettingsModel::new(UserSettings::default());
    assert!(model.update(UserSettings::default()).is_none());
}

#[test]
fn a_name_is_trimmed_and_capped() {
    assert_eq!(clean_name("  Work  "), "Work");
    assert_eq!(clean_name(&"x".repeat(50)).chars().count(), MAX_NAME_CHARS);
    assert_eq!(clean_name("   "), "");
}

#[test]
fn custom_filters_write_their_key_and_query() {
    let filter = CustomDueFilter::new(10, CustomDueUnit::Minute);
    assert_eq!(filter.key(), "custom-10-minutes");
    assert_eq!(filter.query(), "@10minutes");
    assert!(filter.is_valid());
    assert!(!CustomDueFilter::new(0, CustomDueUnit::Day).is_valid());
    assert_eq!(CustomDueFilter::new(-3, CustomDueUnit::Day).key(), "custom--3-days");
    assert!(filter.same_filter(&CustomDueFilter::named(10, CustomDueUnit::Minute, "x".into())));
    assert_eq!(CustomDueUnit::Hour.max_value(), 8_760);
}

#[test]
fn presets_compare_by_pattern_and_reminders_count_minutes() {
    let weekly = RecurrencePreset::new(2, RecurrenceUnit::Week);
    assert!(weekly.same_pattern(&RecurrencePreset::named(2, RecurrenceUnit::Week, "x".into())));
    assert!(!RecurrencePreset::new(1000, RecurrenceUnit::Day).is_valid());
    assert_eq!(ReminderPreset::new(2, ReminderUnit::Day).minutes_before(), 2880);
    assert_eq!(ReminderPreset::new(i32::MAX, ReminderUnit::Hour).minutes_before(), i32::MAX);
    assert!(ReminderPreset::new(3, ReminderUnit::Hour).same_offset(&ReminderPreset::new(3, ReminderUnit::Hour)));
    assert!(!ReminderPreset::new(8761, ReminderUnit::Hour).is_valid());
}

#[test]
fn a_store_failure_carries_its_message() {
    let error = SettingsStoreError::Persistence("disk full".into());
    assert_eq!(error.message(), "settings persistence failed: disk full");
}
