//! The preferences owned by the settings screen and the values inside them.

use vstd::prelude::*;
use crate::settings::sorting::{dedup_by_key, dedup_keys, sort_by_key, sorted_by_key};
use crate::text::{chars_of, decimal, push_char, push_decimal, push_str, same_text, string_of_range, trim, trimmed};

verus! {

/// The colour scheme the window follows.
#[derive(Debug, Clone, Copy, PartialEq, Eq, Structural, Hash)]
pub enum ThemeMode {
    System,
    Light,
    Dark,
}

/// The period a recurrence preset repeats by.
#[derive(Debug, Clone, Copy, PartialEq, Eq, Structural, Hash)]
pub enum RecurrenceUnit {
    Minute,
    Hour,
    Day,
    Week,
    Month,
    Quarter,
    HalfYear,
    Year,
}

/// The unit a reminder offset is counted in.
#[derive(Debug, Clone, Copy, PartialEq, Eq, Structural, Hash)]
pub enum ReminderUnit {
    Minute,
    Hour,
    Day,
}

#[derive(Debug, Clone, Copy, PartialEq, Eq, Structural, Hash)]
pub enum DateTimeFormatKind {
    Default,
    Preset,
    Custom,
    CustomFormat,
}

#[derive(Debug, Clone, PartialEq, Eq)]
pub struct DateTimeFormatPreference {
    pub id: String,
    pub name: String,
    pub format: String,
    pub kind: DateTimeFormatKind,
    pub order: i32,
}

impl Default for DateTimeFormatPreference {
    fn default() -> (r: Self)
        ensures
            r.id@ == "-1"@,
            r.name@ == "default"@,
            r.format@ == Seq::<char>::empty(),
            r.kind == DateTimeFormatKind::Default,
            r.order == 0,
    {
        DateTimeFormatPreference {
            id: String::from_str("-1"),
            name: String::from_str("default"),
            format: String::new(),
            kind: DateTimeFormatKind::Default,
            order: 0,
        }
    }
}

/// Longest name a user can give a filter or preset, in characters.
pub const MAX_NAME_CHARS: usize = 40;

/// A user-entered name, trimmed and capped at [`MAX_NAME_CHARS`] characters.
pub open spec fn cleaned(name: Seq<char>) -> Seq<char> {
    let t = trimmed(name);
    if t.len() <= MAX_NAME_CHARS {
        t
    } else {
        t.take(MAX_NAME_CHARS as int)
    }
}

/// Trims a user-entered name and caps its length. Empty means "use the
/// translated default label".
pub fn clean_name(name: &str) -> (r: String)
    ensures
        r@ == cleaned(name@),
{
    let t = trim(name);
    let chars = chars_of(t.as_str());
    let end = if chars.len() <= MAX_NAME_CHARS {
        chars.len()
    } else {
        MAX_NAME_CHARS
    };
    let r = string_of_range(&chars, 0, end);
    assert(r@ =~= cleaned(name@));
    r
}

/// A UI-facing due-filter preference.
#[derive(Debug, Clone, PartialEq, Eq)]
pub struct DueButtonPreference {
    pub key: String,
    pub query: String,
    pub visible: bool,
    /// What the user calls this filter, e.g. "今期" for this quarter. Empty
    /// shows the translated default label.
    pub name: String,
}

/// The horizon a user-defined due filter covers.
#[derive(Debug, Clone, Copy, PartialEq, Eq, Structural, Hash, PartialOrd, Ord)]
pub enum CustomDueUnit {
    Minute,
    Hour,
    Day,
}

pub open spec fn custom_unit_max(unit: CustomDueUnit) -> i32 {
    match unit {
        CustomDueUnit::Minute => 43_200,
        CustomDueUnit::Hour => 8_760,
        CustomDueUnit::Day => 3_650,
    }
}

pub open spec fn custom_unit_word(unit: CustomDueUnit) -> Seq<char> {
    match unit {
        CustomDueUnit::Minute => "minutes"@,
        CustomDueUnit::Hour => "hours"@,
        CustomDueUnit::Day => "days"@,
    }
}

/// The position of a unit in the order the list is shown in.
pub open spec fn custom_unit_rank(unit: CustomDueUnit) -> int {
    match unit {
        CustomDueUnit::Minute => 0,
        CustomDueUnit::Hour => 1,
        CustomDueUnit::Day => 2,
    }
}

impl CustomDueUnit {
    /// Largest value that still makes sense for the unit.
    pub fn max_value(self) -> (r: i32)
        ensures
            r == custom_unit_max(self),
    {
        match self {
            CustomDueUnit::Minute => 43_200,
            CustomDueUnit::Hour => 8_760,
            CustomDueUnit::Day => 3_650,
        }
    }

    /// The search keyword the filter writes into the search box.
    fn keyword(self) -> (r: &'static str)
        ensures
            r@ == custom_unit_word(self),
    {
        match self {
            CustomDueUnit::Minute => "minutes",
            CustomDueUnit::Hour => "hours",
            CustomDueUnit::Day => "days",
        }
    }
}

/// How `format!` writes an `i32`.
pub open spec fn signed_decimal(v: int) -> Seq<char> {
    if v < 0 {
        seq!['-'] + decimal((-v) as nat)
    } else {
        decimal(v as nat)
    }
}

/// Appends `v` in decimal, with a minus sign when it is negative.
pub fn push_signed(out: &mut String, v: i32)
    ensures
        final(out)@ == old(out)@ + signed_decimal(v as int),
{
    if v < 0 {
        push_char(out, '-');
        let magnitude = (-(v as i64)) as u32;
        push_decimal(out, magnitude);
        assert(final(out)@ =~= old(out)@ + signed_decimal(v as int));
    } else {
        push_decimal(out, v as u32);
    }
}

/// A due filter the user added, e.g. "within 10 minutes" or "next 5 days".
///
/// The unit and the value identify the filter; the name is only what it is
/// called, so two filters differing only by name are the same filter.
#[derive(Debug, Clone, PartialEq, Eq)]
pub struct CustomDueFilter {
    pub unit: CustomDueUnit,
    pub value: i32,
    /// Empty shows the translated default label.
    pub name: String,
}

/// The order filters are listed in: by unit, then by value.
pub open spec fn custom_key(f: CustomDueFilter) -> int {
    custom_unit_rank(f.unit) * 0x1_0000_0000 + (f.value + 0x8000_0000)
}

pub open spec fn custom_valid(f: CustomDueFilter) -> bool {
    1 <= f.value <= custom_unit_max(f.unit)
}

impl CustomDueFilter {
    pub fn new(value: i32, unit: CustomDueUnit) -> (r: Self)
        ensures
            r.value == value,
            r.unit == unit,
            r.name@ == Seq::<char>::empty(),
    {
        Self::named(value, unit, String::new())
    }

    pub fn named(value: i32, unit: CustomDueUnit, name: String) -> (r: Self)
        ensures
            r.value == value,
            r.unit == unit,
            r.name == name,
    {
        CustomDueFilter { unit, value, name }
    }

    /// Ordered by unit first so the list reads shortest horizon first.
    pub fn sort_key(&self) -> (r: (CustomDueUnit, i32))
        ensures
            r == (self.unit, self.value),
    {
        (self.unit, self.value)
    }

    pub fn same_filter(&self, other: &Self) -> (r: bool)
        ensures
            r == (self.unit == other.unit && self.value == other.value),
    {
        self.unit == other.unit && self.value == other.value
    }

    /// Stable identity used as the sidebar button key.
    pub fn key(&self) -> (r: String)
        ensures
            r@ == "custom-"@ + signed_decimal(self.value as int) + seq!['-'] + custom_unit_word(
                self.unit,
            ),
    {
        let mut out = String::from_str("custom-");
        push_signed(&mut out, self.value);
        push_char(&mut out, '-');
        push_str(&mut out, self.unit.keyword());
        out
    }

    /// Search text the button writes into the search box.
    pub fn query(&self) -> (r: String)
        ensures
            r@ == seq!['@'] + signed_decimal(self.value as int) + custom_unit_word(self.unit),
    {
        let mut out = String::new();
        push_char(&mut out, '@');
        push_signed(&mut out, self.value);
        push_str(&mut out, self.unit.keyword());
        out
    }

    pub fn is_valid(&self) -> (r: bool)
        ensures
            r == custom_valid(*self),
    {
        1 <= self.value && self.value <= self.unit.max_value()
    }
}

pub open spec fn recurrence_rank(unit: RecurrenceUnit) -> int {
    match unit {
        RecurrenceUnit::Minute => 0,
        RecurrenceUnit::Hour => 1,
        RecurrenceUnit::Day => 2,
        RecurrenceUnit::Week => 3,
        RecurrenceUnit::Month => 4,
        RecurrenceUnit::Quarter => 5,
        RecurrenceUnit::HalfYear => 6,
        RecurrenceUnit::Year => 7,
    }
}

/// A recurrence pattern the user saved for reuse.
#[derive(Debug, Clone, PartialEq)]
pub struct RecurrencePreset {
    pub unit: RecurrenceUnit,
    pub interval: i32,
    /// Empty shows the translated default summary.
    pub name: String,
}

/// The order presets are listed in: shortest period first, then by interval.
pub open spec fn recurrence_key(p: RecurrencePreset) -> int {
    recurrence_rank(p.unit) * 0x1_0000_0000 + (p.interval + 0x8000_0000)
}

pub open spec fn recurrence_valid(p: RecurrencePreset) -> bool {
    1 <= p.interval <= 999
}

impl RecurrencePreset {
    pub fn new(interval: i32, unit: RecurrenceUnit) -> (r: Self)
        ensures
            r.interval == interval,
            r.unit == unit,
            r.name@ == Seq::<char>::empty(),
    {
        Self::named(interval, unit, String::new())
    }

    pub fn named(interval: i32, unit: RecurrenceUnit, name: String) -> (r: Self)
        ensures
            r.interval == interval,
            r.unit == unit,
            r.name == name,
    {
        RecurrencePreset { unit, interval, name }
    }

    /// The name does not take part: it only says what the pattern is called.
    pub fn same_pattern(&self, other: &Self) -> (r: bool)
        ensures
            r == (self.unit == other.unit && self.interval == other.interval),
    {
        self.unit == other.unit && self.interval == other.interval
    }

    /// An interval of zero or less repeats nothing, and anything past a few
    /// hundred periods is better expressed with a longer unit.
    pub fn is_valid(&self) -> (r: bool)
        ensures
            r == recurrence_valid(*self),
    {
        1 <= self.interval && self.interval <= 999
    }

    /// Shortest period first, so the list reads the way the units do.
    pub fn sort_key(&self) -> (r: (u8, i32))
        ensures
            r.0 == recurrence_rank(self.unit),
            r.1 == self.interval,
    {
        let unit: u8 = match self.unit {
            RecurrenceUnit::Minute => 0,
            RecurrenceUnit::Hour => 1,
            RecurrenceUnit::Day => 2,
            RecurrenceUnit::Week => 3,
            RecurrenceUnit::Month => 4,
            RecurrenceUnit::Quarter => 5,
            RecurrenceUnit::HalfYear => 6,
            RecurrenceUnit::Year => 7,
        };
        (unit, self.interval)
    }
}

pub open spec fn reminder_rank(unit: ReminderUnit) -> int {
    match unit {
        ReminderUnit::Minute => 0,
        ReminderUnit::Hour => 1,
        ReminderUnit::Day => 2,
    }
}

pub open spec fn reminder_max(unit: ReminderUnit) -> i32 {
    match unit {
        ReminderUnit::Minute => 43_200,
        ReminderUnit::Hour => 8_760,
        ReminderUnit::Day => 3_650,
    }
}

/// `v` clamped to the `i32` range.
pub open spec fn saturate(v: int) -> i32 {
    if v > i32::MAX {
        i32::MAX
    } else if v < i32::MIN {
        i32::MIN
    } else {
        v as i32
    }
}

/// How many minutes before the due time a reminder fires.
pub open spec fn minutes_of(unit: ReminderUnit, value: i32) -> i32 {
    match unit {
        ReminderUnit::Minute => value,
        ReminderUnit::Hour => saturate(value * 60),
        ReminderUnit::Day => saturate(value * 1440),
    }
}

/// A relative reminder choice saved for reuse in the task detail editor.
#[derive(Debug, Clone, PartialEq)]
pub struct ReminderPreset {
    pub unit: ReminderUnit,
    pub value: i32,
    /// Empty shows the translated default label.
    pub name: String,
}

/// The order reminders are listed in: by lead time, then by unit and value.
pub open spec fn reminder_key(p: ReminderPreset) -> int {
    (minutes_of(p.unit, p.value) + 0x8000_0000) * 0x8_0000_0000 + reminder_rank(p.unit)
        * 0x1_0000_0000 + (p.value + 0x8000_0000)
}

pub open spec fn reminder_valid(p: ReminderPreset) -> bool {
    1 <= p.value <= reminder_max(p.unit)
}

impl ReminderPreset {
    pub fn new(value: i32, unit: ReminderUnit) -> (r: Self)
        ensures
            r.value == value,
            r.unit == unit,
            r.name@ == Seq::<char>::empty(),
    {
        Self::named(value, unit, String::new())
    }

    pub fn named(value: i32, unit: ReminderUnit, name: String) -> (r: Self)
        ensures
            r.value == value,
            r.unit == unit,
            r.name == name,
    {
        ReminderPreset { unit, value, name }
    }

    /// The name does not take part: it only says what the offset is called.
    pub fn same_offset(&self, other: &Self) -> (r: bool)
        ensures
            r == (self.unit == other.unit && self.value == other.value),
    {
        self.unit == other.unit && self.value == other.value
    }

    pub fn is_valid(&self) -> (r: bool)
        ensures
            r == reminder_valid(*self),
    {
        1 <= self.value && self.value <= self.max_value()
    }

    pub fn minutes_before(&self) -> (r: i32)
        ensures
            r == minutes_of(self.unit, self.value),
    {
        let factor: i64 = match self.unit {
            ReminderUnit::Minute => 1,
            ReminderUnit::Hour => 60,
            ReminderUnit::Day => 1440,
        };
        let product = (self.value as i64) * factor;
        if product > i32::MAX as i64 {
            i32::MAX
        } else if product < i32::MIN as i64 {
            i32::MIN
        } else {
            product as i32
        }
    }

    fn max_value(&self) -> (r: i32)
        ensures
            r == reminder_max(self.unit),
    {
        match self.unit {
            ReminderUnit::Minute => 43_200,
            ReminderUnit::Hour => 8_760,
            ReminderUnit::Day => 3_650,
        }
    }

    pub fn sort_key(&self) -> (r: (i32, u8, i32))
        ensures
            r.0 == minutes_of(self.unit, self.value),
            r.1 == reminder_rank(self.unit),
            r.2 == self.value,
    {
        let unit: u8 = match self.unit {
            ReminderUnit::Minute => 0,
            ReminderUnit::Hour => 1,
            ReminderUnit::Day => 2,
        };
        (self.minutes_before(), unit, self.value)
    }
}

/// Failure reported by the application-provided settings store.
#[derive(Debug, PartialEq, Eq)]
pub enum SettingsStoreError {
    Persistence(String),
}

impl SettingsStoreError {
    /// The message shown for the failure.
    pub fn message(&self) -> (r: String)
        ensures
            match self {
                SettingsStoreError::Persistence(detail) => r@ == "settings persistence failed: "@
                    + detail@,
            },
    {
        match self {
            SettingsStoreError::Persistence(detail) => {
                let mut out = String::from_str("settings persistence failed: ");
                push_str(&mut out, detail.as_str());
                out
            },
        }
    }
}

pub open spec fn format_view(f: DateTimeFormatPreference) -> (Seq<char>, Seq<char>, Seq<char>, DateTimeFormatKind, i32) {
    (f.id@, f.name@, f.format@, f.kind, f.order)
}

pub open spec fn button_view(b: DueButtonPreference) -> (Seq<char>, Seq<char>, bool, Seq<char>) {
    (b.key@, b.query@, b.visible, b.name@)
}

pub open spec fn custom_view(f: CustomDueFilter) -> (CustomDueUnit, i32, Seq<char>) {
    (f.unit, f.value, f.name@)
}

pub open spec fn recurrence_view(p: RecurrencePreset) -> (RecurrenceUnit, i32, Seq<char>) {
    (p.unit, p.interval, p.name@)
}

pub open spec fn reminder_view(p: ReminderPreset) -> (ReminderUnit, i32, Seq<char>) {
    (p.unit, p.value, p.name@)
}

/// The value of [`UserSettings`], texts by their chars.
pub struct SettingsView {
    pub language: Seq<char>,
    pub week_start: Seq<char>,
    pub vim_mode: bool,
    pub timezone: Seq<char>,
    pub datetime_format: (Seq<char>, Seq<char>, Seq<char>, DateTimeFormatKind, i32),
    pub datetime_formats: Seq<(Seq<char>, Seq<char>, Seq<char>, DateTimeFormatKind, i32)>,
    pub due_buttons: Seq<(Seq<char>, Seq<char>, bool, Seq<char>)>,
    pub custom_due_filters: Seq<(CustomDueUnit, i32, Seq<char>)>,
    pub recurrence_presets: Seq<(RecurrenceUnit, i32, Seq<char>)>,
    pub reminder_presets: Seq<(ReminderUnit, i32, Seq<char>)>,
    pub theme_mode: ThemeMode,
    pub font: Seq<char>,
    pub font_size: i32,
    pub font_color: Seq<char>,
    pub background_color: Seq<char>,
}

/// Preferences owned by the settings screen.
#[derive(Debug, Clone, PartialEq)]
pub struct UserSettings {
    /// The UI language tag, e.g. "ja". Empty or unsupported means "follow the
    /// system locale", which `resolve_locale` turns into a supported tag.
    pub language: String,
    pub week_start: String,
    pub vim_mode: bool,
    pub timezone: String,
    pub datetime_format: DateTimeFormatPreference,
    pub datetime_formats: Vec<DateTimeFormatPreference>,
    pub due_buttons: Vec<DueButtonPreference>,
    pub custom_due_filters: Vec<CustomDueFilter>,
    pub recurrence_presets: Vec<RecurrencePreset>,
    pub reminder_presets: Vec<ReminderPreset>,
    pub theme_mode: ThemeMode,
    pub font: String,
    pub font_size: i32,
    pub font_color: String,
    pub background_color: String,
}

impl View for UserSettings {
    type V = SettingsView;

    open spec fn view(&self) -> SettingsView {
        SettingsView {
            language: self.language@,
            week_start: self.week_start@,
            vim_mode: self.vim_mode,
            timezone: self.timezone@,
            datetime_format: format_view(self.datetime_format),
            datetime_formats: self.datetime_formats@.map_values(|f: DateTimeFormatPreference| format_view(f)),
            due_buttons: self.due_buttons@.map_values(|b: DueButtonPreference| button_view(b)),
            custom_due_filters: self.custom_due_filters@.map_values(|f: CustomDueFilter| custom_view(f)),
            recurrence_presets: self.recurrence_presets@.map_values(|p: RecurrencePreset| recurrence_view(p)),
            reminder_presets: self.reminder_presets@.map_values(|p: ReminderPreset| reminder_view(p)),
            theme_mode: self.theme_mode,
            font: self.font@,
            font_size: self.font_size,
            font_color: self.font_color@,
            background_color: self.background_color@,
        }
    }
}

/// Built-in due filters: key, query, and whether the button shows by default.
pub open spec fn builtin_due_filters() -> Seq<(Seq<char>, Seq<char>, bool)> {
    seq![
        ("overdue"@, "@overdue"@, false),
        ("today"@, "@today"@, true),
        ("tomorrow"@, "@tomorrow"@, true),
        ("three-days"@, "@3days"@, false),
        ("this-week"@, "@week"@, true),
        ("this-month"@, "@month"@, false),
        ("this-quarter"@, "@quarter"@, false),
        ("this-year"@, "@year"@, false),
        ("this-fiscal-year"@, "@fiscalyear"@, false),
    ]
}

/// Built-in due filters and their defaults.
pub fn builtin_due_filter_table() -> (r: Vec<(&'static str, &'static str, bool)>)
    ensures
        r@.map_values(|t: (&'static str, &'static str, bool)| (t.0@, t.1@, t.2)) == builtin_due_filters(),
{
    let r = vec![
        ("overdue", "@overdue", false),
        ("today", "@today", true),
        ("tomorrow", "@tomorrow", true),
        ("three-days", "@3days", false),
        ("this-week", "@week", true),
        ("this-month", "@month", false),
        ("this-quarter", "@quarter", false),
        ("this-year", "@year", false),
        ("this-fiscal-year", "@fiscalyear", false),
    ];
    assert(r@.map_values(|t: (&'static str, &'static str, bool)| (t.0@, t.1@, t.2)) =~= builtin_due_filters());
    r
}

/// The reminder choices offered before the user changes them.
pub open spec fn default_reminders() -> Seq<(ReminderUnit, i32, Seq<char>)> {
    seq![
        (ReminderUnit::Minute, 30i32, Seq::<char>::empty()),
        (ReminderUnit::Hour, 1i32, Seq::<char>::empty()),
        (ReminderUnit::Day, 1i32, Seq::<char>::empty()),
    ]
}

/// The settings a fresh installation starts with.
pub open spec fn default_settings() -> SettingsView {
    SettingsView {
        language: Seq::empty(),
        week_start: "sunday"@,
        vim_mode: false,
        timezone: "system"@,
        datetime_format: ("-1"@, "default"@, Seq::empty(), DateTimeFormatKind::Default, 0),
        datetime_formats: Seq::empty(),
        due_buttons: builtin_due_filters().map_values(
            |t: (Seq<char>, Seq<char>, bool)| (t.0, t.1, t.2, Seq::<char>::empty()),
        ),
        custom_due_filters: Seq::empty(),
        recurrence_presets: Seq::empty(),
        reminder_presets: default_reminders(),
        theme_mode: ThemeMode::System,
        font: "system"@,
        font_size: 14,
        font_color: "default"@,
        background_color: "default"@,
    }
}

fn default_due_buttons() -> (r: Vec<DueButtonPreference>)
    ensures
        r@.map_values(|b: DueButtonPreference| button_view(b)) == default_settings().due_buttons,
{
    let table = builtin_due_filter_table();
    let ghost t = table@.map_values(|t: (&'static str, &'static str, bool)| (t.0@, t.1@, t.2));
    let mut out: Vec<DueButtonPreference> = Vec::new();
    let mut i: usize = 0;
    while i < table.len()
        invariant
            i <= table@.len(),
            t == table@.map_values(|t: (&'static str, &'static str, bool)| (t.0@, t.1@, t.2)),
            out@.len() == i,
            forall|k: int| 0 <= k < i ==> #[trigger] button_view(out@[k]) == (t[k].0, t[k].1, t[k].2, Seq::<char>::empty()),
        decreases table@.len() - i,
    {
        let (key, query, visible) = table[i];
        out.push(DueButtonPreference {
            key: String::from_str(key),
            query: String::from_str(query),
            visible,
            name: String::new(),
        });
        i = i + 1;
    }
    assert(out@.map_values(|b: DueButtonPreference| button_view(b)) =~= default_settings().due_buttons);
    out
}

fn default_reminder_presets() -> (r: Vec<ReminderPreset>)
    ensures
        r@.map_values(|p: ReminderPreset| reminder_view(p)) == default_reminders(),
{
    let r = vec![
        ReminderPreset::new(30, ReminderUnit::Minute),
        ReminderPreset::new(1, ReminderUnit::Hour),
        ReminderPreset::new(1, ReminderUnit::Day),
    ];
    assert(r@.map_values(|p: ReminderPreset| reminder_view(p)) =~= default_reminders());
    r
}

impl Default for UserSettings {
    fn default() -> (r: Self)
        ensures
            r@ == default_settings(),
    {
        let r = UserSettings {
            language: String::new(),
            week_start: String::from_str("sunday"),
            vim_mode: false,
            timezone: String::from_str("system"),
            datetime_format: DateTimeFormatPreference::default(),
            datetime_formats: Vec::new(),
            due_buttons: default_due_buttons(),
            custom_due_filters: Vec::new(),
            recurrence_presets: Vec::new(),
            reminder_presets: default_reminder_presets(),
            theme_mode: ThemeMode::System,
            font: String::from_str("system"),
            font_size: 14,
            font_color: String::from_str("default"),
            background_color: String::from_str("default"),
        };
        assert(r@.datetime_formats =~= Seq::<(Seq<char>, Seq<char>, Seq<char>, DateTimeFormatKind, i32)>::empty());
        assert(r@.custom_due_filters =~= Seq::<(CustomDueUnit, i32, Seq<char>)>::empty());
        assert(r@.recurrence_presets =~= Seq::<(RecurrenceUnit, i32, Seq<char>)>::empty());
        assert(r@ =~= default_settings());
        r
    }
}

/// The first stored button at or after `i` with key `key`.
pub open spec fn button_from(bs: Seq<DueButtonPreference>, key: Seq<char>, i: int) -> Option<int>
    decreases bs.len() - i,
{
    if i < 0 || i >= bs.len() {
        None
    } else if bs[i].key@ == key {
        Some(i)
    } else {
        button_from(bs, key, i + 1)
    }
}

/// A built-in button as stored (name cleaned), or with its defaults when it
/// was never stored.
pub open spec fn normalized_button(bs: Seq<DueButtonPreference>, b: (Seq<char>, Seq<char>, bool)) -> (
    Seq<char>,
    Seq<char>,
    bool,
    Seq<char>,
) {
    match button_from(bs, b.0, 0) {
        Some(k) => (bs[k].key@, bs[k].query@, bs[k].visible, cleaned(bs[k].name@)),
        None => (b.0, b.1, b.2, cleaned(Seq::empty())),
    }
}

/// The valid custom filters, each with its sort key.
pub open spec fn keyed_customs(s: Seq<CustomDueFilter>) -> Seq<(i128, CustomDueFilter)>
    decreases s.len(),
{
    if s.len() == 0 {
        Seq::empty()
    } else {
        let rest = keyed_customs(s.drop_last());
        if custom_valid(s.last()) {
            rest.push((custom_key(s.last()) as i128, s.last()))
        } else {
            rest
        }
    }
}

pub open spec fn keyed_recurrences(s: Seq<RecurrencePreset>) -> Seq<(i128, RecurrencePreset)>
    decreases s.len(),
{
    if s.len() == 0 {
        Seq::empty()
    } else {
        let rest = keyed_recurrences(s.drop_last());
        if recurrence_valid(s.last()) {
            rest.push((recurrence_key(s.last()) as i128, s.last()))
        } else {
            rest
        }
    }
}

pub open spec fn keyed_reminders(s: Seq<ReminderPreset>) -> Seq<(i128, ReminderPreset)>
    decreases s.len(),
{
    if s.len() == 0 {
        Seq::empty()
    } else {
        let rest = keyed_reminders(s.drop_last());
        if reminder_valid(s.last()) {
            rest.push((reminder_key(s.last()) as i128, s.last()))
        } else {
            rest
        }
    }
}

pub open spec fn keyed_formats(s: Seq<DateTimeFormatPreference>) -> Seq<(i128, DateTimeFormatPreference)>
    decreases s.len(),
{
    if s.len() == 0 {
        Seq::empty()
    } else {
        let rest = keyed_formats(s.drop_last());
        if s.last().kind == DateTimeFormatKind::CustomFormat {
            rest.push((s.last().order as i128, s.last()))
        } else {
            rest
        }
    }
}

/// At most the first twenty entries.
pub open spec fn first_twenty<T>(s: Seq<T>) -> Seq<T> {
    if s.len() <= 20 {
        s
    } else {
        s.take(20)
    }
}

/// What [`UserSettings::normalize`] keeps of the stored settings.
pub open spec fn normalized_settings(s: UserSettings) -> SettingsView {
    let customs = first_twenty(dedup_by_key(sorted_by_key(keyed_customs(s.custom_due_filters@))));
    let recurrences = first_twenty(dedup_by_key(sorted_by_key(keyed_recurrences(s.recurrence_presets@))));
    let reminders = first_twenty(dedup_by_key(sorted_by_key(keyed_reminders(s.reminder_presets@))));
    let formats = sorted_by_key(keyed_formats(s.datetime_formats@));
    SettingsView {
        datetime_format: if s.datetime_format.kind == DateTimeFormatKind::Default
            && s.datetime_format.id@.len() == 0 {
            ("-1"@, "default"@, Seq::empty(), DateTimeFormatKind::Default, 0)
        } else {
            format_view(s.datetime_format)
        },
        datetime_formats: formats.map_values(|p: (i128, DateTimeFormatPreference)| format_view(p.1)),
        due_buttons: builtin_due_filters().map_values(
            |b: (Seq<char>, Seq<char>, bool)| normalized_button(s.due_buttons@, b),
        ),
        custom_due_filters: customs.map_values(
            |p: (i128, CustomDueFilter)| (p.1.unit, p.1.value, cleaned(p.1.name@)),
        ),
        recurrence_presets: recurrences.map_values(
            |p: (i128, RecurrencePreset)| (p.1.unit, p.1.interval, cleaned(p.1.name@)),
        ),
        reminder_presets: reminders.map_values(
            |p: (i128, ReminderPreset)| (p.1.unit, p.1.value, cleaned(p.1.name@)),
        ),
        ..s@
    }
}

pub(crate) fn custom_key_of(f: &CustomDueFilter) -> (r: i128)
    ensures
        r == custom_key(*f),
{
    let rank: i128 = match f.unit {
        CustomDueUnit::Minute => 0,
        CustomDueUnit::Hour => 1,
        CustomDueUnit::Day => 2,
    };
    rank * 0x1_0000_0000 + (f.value as i128 + 0x8000_0000)
}

pub(crate) fn recurrence_key_of(p: &RecurrencePreset) -> (r: i128)
    ensures
        r == recurrence_key(*p),
{
    let (rank, interval) = p.sort_key();
    (rank as i128) * 0x1_0000_0000 + (interval as i128 + 0x8000_0000)
}

pub(crate) fn reminder_key_of(p: &ReminderPreset) -> (r: i128)
    ensures
        r == reminder_key(*p),
{
    let (minutes, rank, value) = p.sort_key();
    (minutes as i128 + 0x8000_0000) * 0x8_0000_0000 + (rank as i128) * 0x1_0000_0000 + (value as i128
        + 0x8000_0000)
}

fn keep_customs(v: Vec<CustomDueFilter>) -> (r: Vec<(i128, CustomDueFilter)>)
    ensures
        r@ == keyed_customs(v@),
{
    let ghost all = v@;
    let mut rest = v;
    let mut out: Vec<(i128, CustomDueFilter)> = Vec::new();
    let mut i: usize = 0;
    let n = rest.len();
    assert(all.skip(0) =~= all);
    while rest.len() > 0
        invariant
            n == all.len(),
            i + rest@.len() == n,
            rest@ == all.skip(i as int),
            out@ == keyed_customs(all.take(i as int)),
        decreases rest@.len(),
    {
        let f = rest.remove(0);
        proof {
            assert(all.take(i + 1).drop_last() =~= all.take(i as int));
            assert(rest@ =~= all.skip(i + 1));
        }
        if f.is_valid() {
            let key = custom_key_of(&f);
            out.push((key, f));
        }
        i = i + 1;
    }
    assert(all.take(n as int) =~= all);
    out
}

fn keep_recurrences(v: Vec<RecurrencePreset>) -> (r: Vec<(i128, RecurrencePreset)>)
    ensures
        r@ == keyed_recurrences(v@),
{
    let ghost all = v@;
    let mut rest = v;
    let mut out: Vec<(i128, RecurrencePreset)> = Vec::new();
    let mut i: usize = 0;
    let n = rest.len();
    assert(all.skip(0) =~= all);
    while rest.len() > 0
        invariant
            n == all.len(),
            i + rest@.len() == n,
            rest@ == all.skip(i as int),
            out@ == keyed_recurrences(all.take(i as int)),
        decreases rest@.len(),
    {
        let p = rest.remove(0);
        proof {
            assert(all.take(i + 1).drop_last() =~= all.take(i as int));
            assert(rest@ =~= all.skip(i + 1));
        }
        if p.is_valid() {
            let key = recurrence_key_of(&p);
            out.push((key, p));
        }
        i = i + 1;
    }
    assert(all.take(n as int) =~= all);
    out
}

fn keep_reminders(v: Vec<ReminderPreset>) -> (r: Vec<(i128, ReminderPreset)>)
    ensures
        r@ == keyed_reminders(v@),
{
    let ghost all = v@;
    let mut rest = v;
    let mut out: Vec<(i128, ReminderPreset)> = Vec::new();
    let mut i: usize = 0;
    let n = rest.len();
    assert(all.skip(0) =~= all);
    while rest.len() > 0
        invariant
            n == all.len(),
            i + rest@.len() == n,
            rest@ == all.skip(i as int),
            out@ == keyed_reminders(all.take(i as int)),
        decreases rest@.len(),
    {
        let p = rest.remove(0);
        proof {
            assert(all.take(i + 1).drop_last() =~= all.take(i as int));
            assert(rest@ =~= all.skip(i + 1));
        }
        if p.is_valid() {
            let key = reminder_key_of(&p);
            out.push((key, p));
        }
        i = i + 1;
    }
    assert(all.take(n as int) =~= all);
    out
}

fn keep_formats(v: Vec<DateTimeFormatPreference>) -> (r: Vec<(i128, DateTimeFormatPreference)>)
    ensures
        r@ == keyed_formats(v@),
{
    let ghost all = v@;
    let mut rest = v;
    let mut out: Vec<(i128, DateTimeFormatPreference)> = Vec::new();
    let mut i: usize = 0;
    let n = rest.len();
    assert(all.skip(0) =~= all);
    while rest.len() > 0
        invariant
            n == all.len(),
            i + rest@.len() == n,
            rest@ == all.skip(i as int),
            out@ == keyed_formats(all.take(i as int)),
        decreases rest@.len(),
    {
        let f = rest.remove(0);
        proof {
            assert(all.take(i + 1).drop_last() =~= all.take(i as int));
            assert(rest@ =~= all.skip(i + 1));
        }
        if f.kind == DateTimeFormatKind::CustomFormat {
            let key = f.order as i128;
            out.push((key, f));
        }
        i = i + 1;
    }
    assert(all.take(n as int) =~= all);
    out
}

/// The first twenty entries of `v`.
fn keep_first_twenty<T>(v: Vec<T>) -> (r: Vec<T>)
    ensures
        r@ == first_twenty(v@),
{
    let mut v = v;
    if v.len() > 20 {
        v.truncate(20);
    }
    v
}

impl UserSettings {
    fn normalized_buttons(&self) -> (r: Vec<DueButtonPreference>)
        ensures
            r@.map_values(|b: DueButtonPreference| button_view(b)) == builtin_due_filters().map_values(
                |b: (Seq<char>, Seq<char>, bool)| normalized_button(self.due_buttons@, b),
            ),
    {
        let table = builtin_due_filter_table();
        let ghost t = table@.map_values(|t: (&'static str, &'static str, bool)| (t.0@, t.1@, t.2));
        let ghost bs = self.due_buttons@;
        let mut out: Vec<DueButtonPreference> = Vec::new();
        let mut i: usize = 0;
        while i < table.len()
            invariant
                i <= table@.len(),
                t == table@.map_values(|t: (&'static str, &'static str, bool)| (t.0@, t.1@, t.2)),
                t == builtin_due_filters(),
                bs == self.due_buttons@,
                out@.len() == i,
                forall|k: int| 0 <= k < i ==> #[trigger] button_view(out@[k]) == normalized_button(bs, t[k]),
            decreases table@.len() - i,
        {
            let (key, query, visible) = table[i];
            let mut j: usize = 0;
            let mut matched = false;
            while j < self.due_buttons.len() && !matched
                invariant
                    j <= bs.len(),
                    bs == self.due_buttons@,
                    !matched ==> button_from(bs, key@, j as int) == button_from(bs, key@, 0),
                    matched ==> j < bs.len() && button_from(bs, key@, 0) == Some(j as int),
                decreases bs.len() - j, if matched { 0int } else { 1int },
            {
                if same_text(self.due_buttons[j].key.as_str(), key) {
                    matched = true;
                } else {
                    j = j + 1;
                }
            }
            let found: Option<usize> = if matched {
                Some(j)
            } else {
                None
            };
            assert(found matches Some(k) ==> button_from(bs, key@, 0) == Some(k as int));
            assert(found is None ==> button_from(bs, key@, 0) is None);
            let button = match found {
                Some(k) => DueButtonPreference {
                    key: self.due_buttons[k].key.clone(),
                    query: self.due_buttons[k].query.clone(),
                    visible: self.due_buttons[k].visible,
                    name: clean_name(self.due_buttons[k].name.as_str()),
                },
                None => {
                    let empty = String::new();
                    DueButtonPreference {
                        key: String::from_str(key),
                        query: String::from_str(query),
                        visible,
                        name: clean_name(empty.as_str()),
                    }
                },
            };
            assert(button_view(button) == normalized_button(bs, t[i as int]));
            out.push(button);
            i = i + 1;
        }
        assert(out@.map_values(|b: DueButtonPreference| button_view(b)) =~= builtin_due_filters().map_values(
            |b: (Seq<char>, Seq<char>, bool)| normalized_button(self.due_buttons@, b),
        ));
        out
    }

    /// Fills missing built-in due filters while preserving stored visibility,
    /// and sanitises the user's own filters and presets: invalid ones are
    /// dropped, the rest sorted shortest first, entries differing only by name
    /// collapsed to the first one written, at most twenty kept, names cleaned.
    /// Only custom date-time formats are kept, in their stored order.
    pub fn normalize(self) -> (r: Self)
        ensures
            r@ == normalized_settings(self),
    {
        let ghost old_self = self;
        let buttons = self.normalized_buttons();
        let UserSettings {
            language,
            week_start,
            vim_mode,
            timezone,
            datetime_format,
            datetime_formats,
            due_buttons: _,
            custom_due_filters,
            recurrence_presets,
            reminder_presets,
            theme_mode,
            font,
            font_size,
            font_color,
            background_color,
        } = self;
        let datetime_format = if datetime_format.kind == DateTimeFormatKind::Default
            && datetime_format.id.as_str().unicode_len() == 0 {
            DateTimeFormatPreference::default()
        } else {
            datetime_format
        };
        // Custom due filters.
        let customs = keep_first_twenty(dedup_keys(sort_by_key(keep_customs(custom_due_filters))));
        let mut custom_out: Vec<CustomDueFilter> = Vec::new();
        let mut i: usize = 0;
        while i < customs.len()
            invariant
                i <= customs@.len(),
                custom_out@.len() == i,
                forall|k: int| 0 <= k < i ==> #[trigger] custom_view(custom_out@[k]) == (customs@[k].1.unit, customs@[k].1.value, cleaned(customs@[k].1.name@)),
            decreases customs@.len() - i,
        {
            let f = &customs[i].1;
            custom_out.push(CustomDueFilter { unit: f.unit, value: f.value, name: clean_name(f.name.as_str()) });
            i = i + 1;
        }
        // Recurrence presets.
        let recurrences = keep_first_twenty(dedup_keys(sort_by_key(keep_recurrences(recurrence_presets))));
        let mut recurrence_out: Vec<RecurrencePreset> = Vec::new();
        let mut i: usize = 0;
        while i < recurrences.len()
            invariant
                i <= recurrences@.len(),
                recurrence_out@.len() == i,
                forall|k: int| 0 <= k < i ==> #[trigger] recurrence_view(recurrence_out@[k]) == (recurrences@[k].1.unit, recurrences@[k].1.interval, cleaned(recurrences@[k].1.name@)),
            decreases recurrences@.len() - i,
        {
            let p = &recurrences[i].1;
            recurrence_out.push(RecurrencePreset { unit: p.unit, interval: p.interval, name: clean_name(p.name.as_str()) });
            i = i + 1;
        }
        // Reminder presets.
        let reminders = keep_first_twenty(dedup_keys(sort_by_key(keep_reminders(reminder_presets))));
        let mut reminder_out: Vec<ReminderPreset> = Vec::new();
        let mut i: usize = 0;
        while i < reminders.len()
            invariant
                i <= reminders@.len(),
                reminder_out@.len() == i,
                forall|k: int| 0 <= k < i ==> #[trigger] reminder_view(reminder_out@[k]) == (reminders@[k].1.unit, reminders@[k].1.value, cleaned(reminders@[k].1.name@)),
            decreases reminders@.len() - i,
        {
            let p = &reminders[i].1;
            reminder_out.push(ReminderPreset { unit: p.unit, value: p.value, name: clean_name(p.name.as_str()) });
            i = i + 1;
        }
        // Custom date-time formats, in their stored order.
        let formats = sort_by_key(keep_formats(datetime_formats));
        let ghost formats_view = formats@;
        let mut rest = formats;
        let mut format_out: Vec<DateTimeFormatPreference> = Vec::new();
        let n = rest.len();
        let mut i: usize = 0;
        assert(formats_view.skip(0) =~= formats_view);
        while rest.len() > 0
            invariant
                n == formats_view.len(),
                i + rest@.len() == n,
                rest@ == formats_view.skip(i as int),
                format_out@.len() == i,
                forall|k: int| 0 <= k < i ==> #[trigger] format_out@[k] == formats_view[k].1,
            decreases rest@.len(),
        {
            let (_, f) = rest.remove(0);
            assert(rest@ =~= formats_view.skip(i + 1));
            format_out.push(f);
            i = i + 1;
        }
        let r = UserSettings {
            language,
            week_start,
            vim_mode,
            timezone,
            datetime_format,
            datetime_formats: format_out,
            due_buttons: buttons,
            custom_due_filters: custom_out,
            recurrence_presets: recurrence_out,
            reminder_presets: reminder_out,
            theme_mode,
            font,
            font_size,
            font_color,
            background_color,
        };
        proof {
            let target = normalized_settings(old_self);
            assert(r@.datetime_formats =~= target.datetime_formats);
            assert(r@.custom_due_filters =~= target.custom_due_filters);
            assert(r@.recurrence_presets =~= target.recurrence_presets);
            assert(r@.reminder_presets =~= target.reminder_presets);
            assert(r@ =~= target);
        }
        r
    }
}

fn formats_equal(a: &Vec<DateTimeFormatPreference>, b: &Vec<DateTimeFormatPreference>) -> (r: bool)
    ensures
        r == (a@.map_values(|x: DateTimeFormatPreference| format_view(x)) == b@.map_values(|x: DateTimeFormatPreference| format_view(x))),
{
    if a.len() != b.len() {
        proof {
            assert(a@.map_values(|x: DateTimeFormatPreference| format_view(x)).len() != b@.map_values(|x: DateTimeFormatPreference| format_view(x)).len());
        }
        return false;
    }
    let mut i: usize = 0;
    while i < a.len()
        invariant
            i <= a@.len(),
            a@.len() == b@.len(),
            forall|k: int| 0 <= k < i ==> #[trigger] format_view(a@[k]) == format_view(b@[k]),
        decreases a@.len() - i,
    {
        let x = &a[i];
        let y = &b[i];
        if !(same_text(x.id.as_str(), y.id.as_str()) && same_text(x.name.as_str(), y.name.as_str()) && same_text(x.format.as_str(), y.format.as_str()) && x.kind == y.kind && x.order == y.order) {
            proof {
                assert(a@.map_values(|x: DateTimeFormatPreference| format_view(x))[i as int] != b@.map_values(|x: DateTimeFormatPreference| format_view(x))[i as int]);
            }
            return false;
        }
        i = i + 1;
    }
    assert(a@.map_values(|x: DateTimeFormatPreference| format_view(x)) =~= b@.map_values(|x: DateTimeFormatPreference| format_view(x)));
    true
}

/// A copy of a list of date-time formats.
pub fn formats_copy(a: &Vec<DateTimeFormatPreference>) -> (r: Vec<DateTimeFormatPreference>)
    ensures
        r@.map_values(|x: DateTimeFormatPreference| format_view(x)) == a@.map_values(|x: DateTimeFormatPreference| format_view(x)),
{
    let mut out: Vec<DateTimeFormatPreference> = Vec::new();
    let mut i: usize = 0;
    while i < a.len()
        invariant
            i <= a@.len(),
            out@.len() == i,
            forall|k: int| 0 <= k < i ==> #[trigger] format_view(out@[k]) == format_view(a@[k]),
        decreases a@.len() - i,
    {
        let x = &a[i];
        out.push(DateTimeFormatPreference { id: x.id.clone(), name: x.name.clone(), format: x.format.clone(), kind: x.kind, order: x.order });
        i = i + 1;
    }
    assert(out@.map_values(|x: DateTimeFormatPreference| format_view(x)) =~= a@.map_values(|x: DateTimeFormatPreference| format_view(x)));
    out
}

fn buttons_equal(a: &Vec<DueButtonPreference>, b: &Vec<DueButtonPreference>) -> (r: bool)
    ensures
        r == (a@.map_values(|x: DueButtonPreference| button_view(x)) == b@.map_values(|x: DueButtonPreference| button_view(x))),
{
    if a.len() != b.len() {
        proof {
            assert(a@.map_values(|x: DueButtonPreference| button_view(x)).len() != b@.map_values(|x: DueButtonPreference| button_view(x)).len());
        }
        return false;
    }
    let mut i: usize = 0;
    while i < a.len()
        invariant
            i <= a@.len(),
            a@.len() == b@.len(),
            forall|k: int| 0 <= k < i ==> #[trigger] button_view(a@[k]) == button_view(b@[k]),
        decreases a@.len() - i,
    {
        let x = &a[i];
        let y = &b[i];
        if !(same_text(x.key.as_str(), y.key.as_str()) && same_text(x.query.as_str(), y.query.as_str()) && x.visible == y.visible && same_text(x.name.as_str(), y.name.as_str())) {
            proof {
                assert(a@.map_values(|x: DueButtonPreference| button_view(x))[i as int] != b@.map_values(|x: DueButtonPreference| button_view(x))[i as int]);
            }
            return false;
        }
        i = i + 1;
    }
    assert(a@.map_values(|x: DueButtonPreference| button_view(x)) =~= b@.map_values(|x: DueButtonPreference| button_view(x)));
    true
}

fn buttons_copy(a: &Vec<DueButtonPreference>) -> (r: Vec<DueButtonPreference>)
    ensures
        r@.map_values(|x: DueButtonPreference| button_view(x)) == a@.map_values(|x: DueButtonPreference| button_view(x)),
{
    let mut out: Vec<DueButtonPreference> = Vec::new();
    let mut i: usize = 0;
    while i < a.len()
        invariant
            i <= a@.len(),
            out@.len() == i,
            forall|k: int| 0 <= k < i ==> #[trigger] button_view(out@[k]) == button_view(a@[k]),
        decreases a@.len() - i,
    {
        let x = &a[i];
        out.push(DueButtonPreference { key: x.key.clone(), query: x.query.clone(), visible: x.visible, name: x.name.clone() });
        i = i + 1;
    }
    assert(out@.map_values(|x: DueButtonPreference| button_view(x)) =~= a@.map_values(|x: DueButtonPreference| button_view(x)));
    out
}

fn customs_equal(a: &Vec<CustomDueFilter>, b: &Vec<CustomDueFilter>) -> (r: bool)
    ensures
        r == (a@.map_values(|x: CustomDueFilter| custom_view(x)) == b@.map_values(|x: CustomDueFilter| custom_view(x))),
{
    if a.len() != b.len() {
        proof {
            assert(a@.map_values(|x: CustomDueFilter| custom_view(x)).len() != b@.map_values(|x: CustomDueFilter| custom_view(x)).len());
        }
        return false;
    }
    let mut i: usize = 0;
    while i < a.len()
        invariant
            i <= a@.len(),
            a@.len() == b@.len(),
            forall|k: int| 0 <= k < i ==> #[trigger] custom_view(a@[k]) == custom_view(b@[k]),
        decreases a@.len() - i,
    {
        let x = &a[i];
        let y = &b[i];
        if !(x.unit == y.unit && x.value == y.value && same_text(x.name.as_str(), y.name.as_str())) {
            proof {
                assert(a@.map_values(|x: CustomDueFilter| custom_view(x))[i as int] != b@.map_values(|x: CustomDueFilter| custom_view(x))[i as int]);
            }
            return false;
        }
        i = i + 1;
    }
    assert(a@.map_values(|x: CustomDueFilter| custom_view(x)) =~= b@.map_values(|x: CustomDueFilter| custom_view(x)));
    true
}

fn customs_copy(a: &Vec<CustomDueFilter>) -> (r: Vec<CustomDueFilter>)
    ensures
        r@.map_values(|x: CustomDueFilter| custom_view(x)) == a@.map_values(|x: CustomDueFilter| custom_view(x)),
{
    let mut out: Vec<CustomDueFilter> = Vec::new();
    let mut i: usize = 0;
    while i < a.len()
        invariant
            i <= a@.len(),
            out@.len() == i,
            forall|k: int| 0 <= k < i ==> #[trigger] custom_view(out@[k]) == custom_view(a@[k]),
        decreases a@.len() - i,
    {
        let x = &a[i];
        out.push(CustomDueFilter { unit: x.unit, value: x.value, name: x.name.clone() });
        i = i + 1;
    }
    assert(out@.map_values(|x: CustomDueFilter| custom_view(x)) =~= a@.map_values(|x: CustomDueFilter| custom_view(x)));
    out
}

fn recurrences_equal(a: &Vec<RecurrencePreset>, b: &Vec<RecurrencePreset>) -> (r: bool)
    ensures
        r == (a@.map_values(|x: RecurrencePreset| recurrence_view(x)) == b@.map_values(|x: RecurrencePreset| recurrence_view(x))),
{
    if a.len() != b.len() {
        proof {
            assert(a@.map_values(|x: RecurrencePreset| recurrence_view(x)).len() != b@.map_values(|x: RecurrencePreset| recurrence_view(x)).len());
        }
        return false;
    }
    let mut i: usize = 0;
    while i < a.len()
        invariant
            i <= a@.len(),
            a@.len() == b@.len(),
            forall|k: int| 0 <= k < i ==> #[trigger] recurrence_view(a@[k]) == recurrence_view(b@[k]),
        decreases a@.len() - i,
    {
        let x = &a[i];
        let y = &b[i];
        if !(x.unit == y.unit && x.interval == y.interval && same_text(x.name.as_str(), y.name.as_str())) {
            proof {
                assert(a@.map_values(|x: RecurrencePreset| recurrence_view(x))[i as int] != b@.map_values(|x: RecurrencePreset| recurrence_view(x))[i as int]);
            }
            return false;
        }
        i = i + 1;
    }
    assert(a@.map_values(|x: RecurrencePreset| recurrence_view(x)) =~= b@.map_values(|x: RecurrencePreset| recurrence_view(x)));
    true
}

fn recurrences_copy(a: &Vec<RecurrencePreset>) -> (r: Vec<RecurrencePreset>)
    ensures
        r@.map_values(|x: RecurrencePreset| recurrence_view(x)) == a@.map_values(|x: RecurrencePreset| recurrence_view(x)),
{
    let mut out: Vec<RecurrencePreset> = Vec::new();
    let mut i: usize = 0;
    while i < a.len()
        invariant
            i <= a@.len(),
            out@.len() == i,
            forall|k: int| 0 <= k < i ==> #[trigger] recurrence_view(out@[k]) == recurrence_view(a@[k]),
        decreases a@.len() - i,
    {
        let x = &a[i];
        out.push(RecurrencePreset { unit: x.unit, interval: x.interval, name: x.name.clone() });
        i = i + 1;
    }
    assert(out@.map_values(|x: RecurrencePreset| recurrence_view(x)) =~= a@.map_values(|x: RecurrencePreset| recurrence_view(x)));
    out
}

fn reminders_equal(a: &Vec<ReminderPreset>, b: &Vec<ReminderPreset>) -> (r: bool)
    ensures
        r == (a@.map_values(|x: ReminderPreset| reminder_view(x)) == b@.map_values(|x: ReminderPreset| reminder_view(x))),
{
    if a.len() != b.len() {
        proof {
            assert(a@.map_values(|x: ReminderPreset| reminder_view(x)).len() != b@.map_values(|x: ReminderPreset| reminder_view(x)).len());
        }
        return false;
    }
    let mut i: usize = 0;
    while i < a.len()
        invariant
            i <= a@.len(),
            a@.len() == b@.len(),
            forall|k: int| 0 <= k < i ==> #[trigger] reminder_view(a@[k]) == reminder_view(b@[k]),
        decreases a@.len() - i,
    {
        let x = &a[i];
        let y = &b[i];
        if !(x.unit == y.unit && x.value == y.value && same_text(x.name.as_str(), y.name.as_str())) {
            proof {
                assert(a@.map_values(|x: ReminderPreset| reminder_view(x))[i as int] != b@.map_values(|x: ReminderPreset| reminder_view(x))[i as int]);
            }
            return false;
        }
        i = i + 1;
    }
    assert(a@.map_values(|x: ReminderPreset| reminder_view(x)) =~= b@.map_values(|x: ReminderPreset| reminder_view(x)));
    true
}

fn reminders_copy(a: &Vec<ReminderPreset>) -> (r: Vec<ReminderPreset>)
    ensures
        r@.map_values(|x: ReminderPreset| reminder_view(x)) == a@.map_values(|x: ReminderPreset| reminder_view(x)),
{
    let mut out: Vec<ReminderPreset> = Vec::new();
    let mut i: usize = 0;
    while i < a.len()
        invariant
            i <= a@.len(),
            out@.len() == i,
            forall|k: int| 0 <= k < i ==> #[trigger] reminder_view(out@[k]) == reminder_view(a@[k]),
        decreases a@.len() - i,
    {
        let x = &a[i];
        out.push(ReminderPreset { unit: x.unit, value: x.value, name: x.name.clone() });
        i = i + 1;
    }
    assert(out@.map_values(|x: ReminderPreset| reminder_view(x)) =~= a@.map_values(|x: ReminderPreset| reminder_view(x)));
    out
}

/// Whether two settings hold the same values.
pub fn same_settings(a: &UserSettings, b: &UserSettings) -> (r: bool)
    ensures
        r == (a@ == b@),
{
    let fa = &a.datetime_format;
    let fb = &b.datetime_format;
    let r = same_text(a.language.as_str(), b.language.as_str())
        && same_text(a.week_start.as_str(), b.week_start.as_str())
        && a.vim_mode == b.vim_mode
        && same_text(a.timezone.as_str(), b.timezone.as_str())
        && same_text(fa.id.as_str(), fb.id.as_str())
        && same_text(fa.name.as_str(), fb.name.as_str())
        && same_text(fa.format.as_str(), fb.format.as_str())
        && fa.kind == fb.kind
        && fa.order == fb.order
        && formats_equal(&a.datetime_formats, &b.datetime_formats)
        && buttons_equal(&a.due_buttons, &b.due_buttons)
        && customs_equal(&a.custom_due_filters, &b.custom_due_filters)
        && recurrences_equal(&a.recurrence_presets, &b.recurrence_presets)
        && reminders_equal(&a.reminder_presets, &b.reminder_presets)
        && a.theme_mode == b.theme_mode
        && same_text(a.font.as_str(), b.font.as_str())
        && a.font_size == b.font_size
        && same_text(a.font_color.as_str(), b.font_color.as_str())
        && same_text(a.background_color.as_str(), b.background_color.as_str());
    proof {
        if a@ == b@ {
            assert(r);
        }
        if r {
            assert(a@ =~= b@);
        }
    }
    r
}

/// A copy of the settings with the same values.
pub fn copy_settings(s: &UserSettings) -> (r: UserSettings)
    ensures
        r@ == s@,
{
    let f = &s.datetime_format;
    let r = UserSettings {
        language: s.language.clone(),
        week_start: s.week_start.clone(),
        vim_mode: s.vim_mode,
        timezone: s.timezone.clone(),
        datetime_format: DateTimeFormatPreference {
            id: f.id.clone(),
            name: f.name.clone(),
            format: f.format.clone(),
            kind: f.kind,
            order: f.order,
        },
        datetime_formats: formats_copy(&s.datetime_formats),
        due_buttons: buttons_copy(&s.due_buttons),
        custom_due_filters: customs_copy(&s.custom_due_filters),
        recurrence_presets: recurrences_copy(&s.recurrence_presets),
        reminder_presets: reminders_copy(&s.reminder_presets),
        theme_mode: s.theme_mode,
        font: s.font.clone(),
        font_size: s.font_size,
        font_color: s.font_color.clone(),
        background_color: s.background_color.clone(),
    };
    assert(r@ =~= s@);
    r
}

/// The edited settings, the last saved ones, and the revision of the latest change.
pub struct SettingsModel {
    pub current: UserSettings,
    persisted: UserSettings,
    revision: u64,
}

impl SettingsModel {
    /// The settings being edited.
    pub closed spec fn edited(self) -> SettingsView {
        self.current@
    }

    /// The settings last confirmed as saved.
    pub closed spec fn saved(self) -> SettingsView {
        self.persisted@
    }

    /// The revision of the latest change.
    pub closed spec fn latest(self) -> u64 {
        self.revision
    }

    pub fn new(settings: UserSettings) -> (r: Self)
        ensures
            r.edited() == settings@,
            r.saved() == settings@,
            r.latest() == 0,
    {
        SettingsModel { current: copy_settings(&settings), persisted: settings, revision: 0 }
    }

    /// Makes `next` the current settings. A change gets the next revision and
    /// is handed back to be saved; settings equal to the current ones change
    /// nothing and return `None`.
    pub fn update(&mut self, next: UserSettings) -> (r: Option<(UserSettings, u64)>)
        requires
            old(self).latest() < u64::MAX,
        ensures
            old(self).edited() == next@ ==> r is None && final(self).edited() == old(self).edited()
                && final(self).latest() == old(self).latest(),
            old(self).edited() != next@ ==> (r matches Some((s, rev)) && s@ == next@ && rev
                == old(self).latest() + 1 && final(self).edited() == next@ && final(self).latest()
                == rev),
            final(self).saved() == old(self).saved(),
    {
        if same_settings(&self.current, &next) {
            return None;
        }
        self.current = next;
        self.revision = self.revision + 1;
        Some((copy_settings(&self.current), self.revision))
    }

    /// Records that `settings` were saved.
    pub fn mark_persisted(&mut self, settings: UserSettings)
        ensures
            final(self).saved() == settings@,
            final(self).edited() == old(self).edited(),
            final(self).latest() == old(self).latest(),
    {
        self.persisted = settings;
    }

    /// After a failed save of `revision`: when no later change was made, puts
    /// the last saved settings back and returns them; otherwise changes nothing.
    pub fn rollback_if_current(&mut self, revision: u64) -> (r: Option<UserSettings>)
        ensures
            revision == old(self).latest() ==> (r matches Some(s) && s@ == old(self).saved()
                && final(self).edited() == old(self).saved()),
            revision != old(self).latest() ==> r is None && final(self).edited() == old(
                self,
            ).edited(),
            final(self).saved() == old(self).saved(),
            final(self).latest() == old(self).latest(),
    {
        if self.revision != revision {
            return None;
        }
        self.current = copy_settings(&self.persisted);
        Some(copy_settings(&self.current))
    }
}


} // verus!
