//! The edits the settings screen makes to the stored preferences.
//!
//! Each edit changes one part of the settings and leaves every other part as
//! it was. Saved filters and presets are told apart by their unit and amount
//! alone: the name only says what one is called. A list holds at most
//! [`MAX_SAVED`] of them, kept in sort order.

use vstd::prelude::*;
use crate::settings::locale::{supported, supported_locale};
use crate::settings::model::{
    custom_key, custom_key_of, custom_valid, recurrence_key, recurrence_key_of, recurrence_valid,
    reminder_key, reminder_key_of, reminder_valid, CustomDueFilter, CustomDueUnit,
    DueButtonPreference, RecurrencePreset, RecurrenceUnit, ReminderPreset, ReminderUnit,
    SettingsView, UserSettings, cleaned, clean_name, format_view, DateTimeFormatKind,
    DateTimeFormatPreference,
};
use crate::settings::sorting::{
    in_key_order, keyed_by, kept, lemma_kept, lemma_sorted_on, sort_by_key, sorted_on,
    unkeyed,
};
use crate::settings::datetime_format::{all_formats, built_in_views, formats_view};
use crate::text::{same_text, trim, trimmed};

verus! {

/// The most filters or presets of one kind a user can save.
pub const MAX_SAVED: usize = 20;

/// The smallest and largest font size the settings accept.
pub const MIN_FONT_SIZE: i32 = 8;
pub const MAX_FONT_SIZE: i32 = 72;

fn unkey<T>(v: Vec<(i128, T)>) -> (r: Vec<T>)
    ensures
        r@ == unkeyed(v@),
{
    let ghost all = v@;
    let mut rest = v;
    let mut out: Vec<T> = Vec::new();
    let mut i: usize = 0;
    let n = rest.len();
    assert(all.skip(0) =~= all);
    while rest.len() > 0
        invariant
            n == all.len(),
            i + rest@.len() == n,
            rest@ == all.skip(i as int),
            out@ == unkeyed(all.take(i as int)),
        decreases rest@.len(),
    {
        let (_, x) = rest.remove(0);
        assert(rest@ =~= all.skip(i + 1));
        out.push(x);
        assert(out@ =~= unkeyed(all.take(i + 1)));
        i = i + 1;
    }
    assert(all.take(n as int) =~= all);
    out
}

/// `settings` with only its custom due filters replaced by `filters`.
pub open spec fn with_customs(settings: SettingsView, filters: Seq<(CustomDueUnit, i32, Seq<char>)>) -> SettingsView {
    SettingsView { custom_due_filters: filters, ..settings }
}

/// `settings` with only its recurrence presets replaced by `presets`.
pub open spec fn with_recurrences(settings: SettingsView, presets: Seq<(RecurrenceUnit, i32, Seq<char>)>) -> SettingsView {
    SettingsView { recurrence_presets: presets, ..settings }
}

/// `settings` with only its reminder presets replaced by `presets`.
pub open spec fn with_reminders(settings: SettingsView, presets: Seq<(ReminderUnit, i32, Seq<char>)>) -> SettingsView {
    SettingsView { reminder_presets: presets, ..settings }
}

// ---------------------------------------------------------------------------
// Custom due filters

pub open spec fn is_custom(f: CustomDueFilter, other: CustomDueFilter) -> bool {
    f.unit == other.unit && f.value == other.value
}

/// Some filter of `s` has the unit and amount of `f`.
pub open spec fn holds_custom(s: Seq<CustomDueFilter>, f: CustomDueFilter) -> bool {
    exists|i: int| 0 <= i < s.len() && #[trigger] is_custom(s[i], f)
}

/// `k` is the first filter of `s` with the unit and amount of `f`.
pub open spec fn first_custom(s: Seq<CustomDueFilter>, f: CustomDueFilter, k: int) -> bool {
    &&& 0 <= k < s.len()
    &&& is_custom(s[k], f)
    &&& forall|j: int| 0 <= j < k ==> !#[trigger] is_custom(s[j], f)
}

/// The order custom due filters are listed in.
pub open spec fn custom_order() -> spec_fn(CustomDueFilter) -> i128 {
    |f: CustomDueFilter| custom_key(f) as i128
}

pub open spec fn keyed_all_customs(s: Seq<CustomDueFilter>) -> Seq<(i128, CustomDueFilter)> {
    keyed_by(s, custom_order())
}

/// `s` after adding `f`: listed in sort order when it is valid, the list has
/// room and no filter with its unit and value is there yet; `s` otherwise.
pub open spec fn with_custom(s: Seq<CustomDueFilter>, f: CustomDueFilter) -> Seq<CustomDueFilter> {
    if custom_valid(f) && s.len() < MAX_SAVED && !holds_custom(s, f) {
        sorted_on(s.push(f), custom_order())
    } else {
        s
    }
}

/// `s` without the filters that have the unit and value of `f`.
pub open spec fn without_custom(s: Seq<CustomDueFilter>, f: CustomDueFilter) -> Seq<CustomDueFilter> {
    kept(s, |c: CustomDueFilter| !is_custom(c, f))
}

fn key_customs(v: Vec<CustomDueFilter>) -> (r: Vec<(i128, CustomDueFilter)>)
    ensures
        r@ == keyed_all_customs(v@),
{
    let ghost all = v@;
    let mut rest = v;
    let mut out: Vec<(i128, CustomDueFilter)> = Vec::new();
    let mut i: usize = 0;
    let n = rest.len();
    assert(all.skip(0) =~= all);
    while rest.len() > 0
        invariant
            n == all.len(),
            i + rest@.len() == n,
            rest@ == all.skip(i as int),
            out@ == keyed_all_customs(all.take(i as int)),
        decreases rest@.len(),
    {
        let f = rest.remove(0);
        assert(rest@ =~= all.skip(i + 1));
        let key = custom_key_of(&f);
        out.push((key, f));
        assert(out@ =~= keyed_all_customs(all.take(i + 1)));
        i = i + 1;
    }
    assert(all.take(n as int) =~= all);
    out
}

fn position_of_custom(s: &Vec<CustomDueFilter>, f: &CustomDueFilter) -> (r: Option<usize>)
    ensures
        match r {
            Some(k) => first_custom(s@, *f, k as int),
            None => !holds_custom(s@, *f),
        },
{
    let mut i: usize = 0;
    while i < s.len()
        invariant
            i <= s@.len(),
            forall|j: int| 0 <= j < i ==> !#[trigger] is_custom(s@[j], *f),
        decreases s@.len() - i,
    {
        if s[i].same_filter(f) {
            return Some(i);
        }
        i = i + 1;
    }
    None
}


/// Adding a custom due filter never takes the list past [`MAX_SAVED`]; a
/// valid filter added while there is room is then listed; and a list in sort
/// order stays in sort order.
pub proof fn law_adding_a_custom_due_filter(s: Seq<CustomDueFilter>, f: CustomDueFilter)
    requires
        s.len() <= MAX_SAVED,
    ensures
        with_custom(s, f).len() <= MAX_SAVED,
        custom_valid(f) && s.len() < MAX_SAVED ==> holds_custom(with_custom(s, f), f),
        in_key_order(s, custom_order()) ==> in_key_order(with_custom(s, f), custom_order()),
{
    lemma_sorted_on(s.push(f), custom_order());
    let r = with_custom(s, f);
    if custom_valid(f) && s.len() < MAX_SAVED {
        if holds_custom(s, f) {
        } else {
            assert(s.push(f)[s.len() as int] == f);
            assert(s.push(f).contains(f));
            assert(r.contains(f));
            let i = choose|i: int| 0 <= i < r.len() && r[i] == f;
            assert(is_custom(r[i], f));
        }
    }
}

/// After removing a custom due filter no filter with its unit and value is
/// left, every other filter stays, and a list in sort order stays in order.
pub proof fn law_removing_a_custom_due_filter(s: Seq<CustomDueFilter>, f: CustomDueFilter)
    ensures
        !holds_custom(without_custom(s, f), f),
        forall|g: CustomDueFilter| #[trigger] s.contains(g) && !is_custom(g, f) ==> without_custom(s, f).contains(g),
        in_key_order(s, custom_order()) ==> in_key_order(without_custom(s, f), custom_order()),
{
    let keep = |c: CustomDueFilter| !is_custom(c, f);
    lemma_kept(s, keep, custom_order());
    let r = without_custom(s, f);
    assert forall|i: int| 0 <= i < r.len() implies !#[trigger] is_custom(r[i], f) by {
        assert(r.contains(r[i]));
    }
}

/// Saves `filter` among the custom due filters, in sort order.
///
/// Nothing changes when the filter is invalid, when [`MAX_SAVED`] filters
/// are saved already, or when one with the same unit and value is there.
pub fn add_custom_due_filter(settings: &mut UserSettings, filter: CustomDueFilter)
    ensures
        final(settings).custom_due_filters@ == with_custom(old(settings).custom_due_filters@, filter),
        final(settings)@ == with_customs(old(settings)@, final(settings)@.custom_due_filters),
{
    if !filter.is_valid() || settings.custom_due_filters.len() >= MAX_SAVED {
        assert(final(settings)@ =~= with_customs(old(settings)@, final(settings)@.custom_due_filters));
        return;
    }
    if position_of_custom(&settings.custom_due_filters, &filter).is_some() {
        assert(final(settings)@ =~= with_customs(old(settings)@, final(settings)@.custom_due_filters));
        return;
    }
    let mut list: Vec<CustomDueFilter> = Vec::new();
    std::mem::swap(&mut list, &mut settings.custom_due_filters);
    list.push(filter);
    let sorted = sort_by_key(key_customs(list));
    settings.custom_due_filters = unkey(sorted);
}

/// Gives the first custom due filter with the unit and value of `renamed`
/// the name of `renamed`; nothing changes when there is none.
pub fn rename_custom_due_filter(settings: &mut UserSettings, renamed: CustomDueFilter)
    ensures
        !holds_custom(old(settings).custom_due_filters@, renamed) ==> final(settings)@ == old(settings)@,
        holds_custom(old(settings).custom_due_filters@, renamed) ==> exists|k: int|
            first_custom(old(settings).custom_due_filters@, renamed, k)
            && final(settings).custom_due_filters@ == old(settings).custom_due_filters@.update(
                k,
                (CustomDueFilter {
                    unit: old(settings).custom_due_filters@[k].unit,
                    value: old(settings).custom_due_filters@[k].value,
                    name: renamed.name,
                }),
            ),
        final(settings)@ == with_customs(old(settings)@, final(settings)@.custom_due_filters),
{
    match position_of_custom(&settings.custom_due_filters, &renamed) {
        None => {
            assert(final(settings)@ =~= with_customs(old(settings)@, final(settings)@.custom_due_filters));
        },
        Some(k) => {
            let unit = settings.custom_due_filters[k].unit;
            let value = settings.custom_due_filters[k].value;
            settings.custom_due_filters.set(k, CustomDueFilter { unit, value, name: renamed.name });
            assert(final(settings)@ =~= with_customs(old(settings)@, final(settings)@.custom_due_filters));
        },
    }
}

/// Forgets every custom due filter with the unit and value of `filter`.
pub fn remove_custom_due_filter(settings: &mut UserSettings, filter: &CustomDueFilter)
    ensures
        final(settings).custom_due_filters@ == without_custom(old(settings).custom_due_filters@, *filter),
        final(settings)@ == with_customs(old(settings)@, final(settings)@.custom_due_filters),
{
    let mut list: Vec<CustomDueFilter> = Vec::new();
    std::mem::swap(&mut list, &mut settings.custom_due_filters);
    let ghost all = list@;
    let mut out: Vec<CustomDueFilter> = Vec::new();
    let mut i: usize = 0;
    let n = list.len();
    assert(all.skip(0) =~= all);
    while list.len() > 0
        invariant
            n == all.len(),
            i + list@.len() == n,
            list@ == all.skip(i as int),
            out@ == without_custom(all.take(i as int), *filter),
        decreases list@.len(),
    {
        let f = list.remove(0);
        proof {
            assert(all.take(i + 1).drop_last() =~= all.take(i as int));
            assert(list@ =~= all.skip(i + 1));
        }
        if !f.same_filter(filter) {
            out.push(f);
        }
        i = i + 1;
    }
    assert(all.take(n as int) =~= all);
    settings.custom_due_filters = out;
    assert(final(settings)@ =~= with_customs(old(settings)@, final(settings)@.custom_due_filters));
}

// ---------------------------------------------------------------------------
// Recurrence presets

pub open spec fn is_recurrence(f: RecurrencePreset, other: RecurrencePreset) -> bool {
    f.unit == other.unit && f.interval == other.interval
}

/// Some preset of `s` has the unit and amount of `f`.
pub open spec fn holds_recurrence(s: Seq<RecurrencePreset>, f: RecurrencePreset) -> bool {
    exists|i: int| 0 <= i < s.len() && #[trigger] is_recurrence(s[i], f)
}

/// `k` is the first preset of `s` with the unit and amount of `f`.
pub open spec fn first_recurrence(s: Seq<RecurrencePreset>, f: RecurrencePreset, k: int) -> bool {
    &&& 0 <= k < s.len()
    &&& is_recurrence(s[k], f)
    &&& forall|j: int| 0 <= j < k ==> !#[trigger] is_recurrence(s[j], f)
}

/// The order recurrence presets are listed in.
pub open spec fn recurrence_order() -> spec_fn(RecurrencePreset) -> i128 {
    |f: RecurrencePreset| recurrence_key(f) as i128
}

pub open spec fn keyed_all_recurrences(s: Seq<RecurrencePreset>) -> Seq<(i128, RecurrencePreset)> {
    keyed_by(s, recurrence_order())
}

/// `s` after adding `f`: listed in sort order when it is valid, the list has
/// room and no preset with its unit and interval is there yet; `s` otherwise.
pub open spec fn with_recurrence(s: Seq<RecurrencePreset>, f: RecurrencePreset) -> Seq<RecurrencePreset> {
    if recurrence_valid(f) && s.len() < MAX_SAVED && !holds_recurrence(s, f) {
        sorted_on(s.push(f), recurrence_order())
    } else {
        s
    }
}

/// `s` without the presets that have the unit and interval of `f`.
pub open spec fn without_recurrence(s: Seq<RecurrencePreset>, f: RecurrencePreset) -> Seq<RecurrencePreset> {
    kept(s, |c: RecurrencePreset| !is_recurrence(c, f))
}

fn key_recurrences(v: Vec<RecurrencePreset>) -> (r: Vec<(i128, RecurrencePreset)>)
    ensures
        r@ == keyed_all_recurrences(v@),
{
    let ghost all = v@;
    let mut rest = v;
    let mut out: Vec<(i128, RecurrencePreset)> = Vec::new();
    let mut i: usize = 0;
    let n = rest.len();
    assert(all.skip(0) =~= all);
    while rest.len() > 0
        invariant
            n == all.len(),
            i + rest@.len() == n,
            rest@ == all.skip(i as int),
            out@ == keyed_all_recurrences(all.take(i as int)),
        decreases rest@.len(),
    {
        let f = rest.remove(0);
        assert(rest@ =~= all.skip(i + 1));
        let key = recurrence_key_of(&f);
        out.push((key, f));
        assert(out@ =~= keyed_all_recurrences(all.take(i + 1)));
        i = i + 1;
    }
    assert(all.take(n as int) =~= all);
    out
}

fn position_of_recurrence(s: &Vec<RecurrencePreset>, f: &RecurrencePreset) -> (r: Option<usize>)
    ensures
        match r {
            Some(k) => first_recurrence(s@, *f, k as int),
            None => !holds_recurrence(s@, *f),
        },
{
    let mut i: usize = 0;
    while i < s.len()
        invariant
            i <= s@.len(),
            forall|j: int| 0 <= j < i ==> !#[trigger] is_recurrence(s@[j], *f),
        decreases s@.len() - i,
    {
        if s[i].same_pattern(f) {
            return Some(i);
        }
        i = i + 1;
    }
    None
}


/// Adding a recurrence preset never takes the list past [`MAX_SAVED`]; a
/// valid preset added while there is room is then listed; and a list in sort
/// order stays in sort order.
pub proof fn law_adding_a_recurrence_preset(s: Seq<RecurrencePreset>, f: RecurrencePreset)
    requires
        s.len() <= MAX_SAVED,
    ensures
        with_recurrence(s, f).len() <= MAX_SAVED,
        recurrence_valid(f) && s.len() < MAX_SAVED ==> holds_recurrence(with_recurrence(s, f), f),
        in_key_order(s, recurrence_order()) ==> in_key_order(with_recurrence(s, f), recurrence_order()),
{
    lemma_sorted_on(s.push(f), recurrence_order());
    let r = with_recurrence(s, f);
    if recurrence_valid(f) && s.len() < MAX_SAVED {
        if holds_recurrence(s, f) {
        } else {
            assert(s.push(f)[s.len() as int] == f);
            assert(s.push(f).contains(f));
            assert(r.contains(f));
            let i = choose|i: int| 0 <= i < r.len() && r[i] == f;
            assert(is_recurrence(r[i], f));
        }
    }
}

/// After removing a recurrence preset no preset with its unit and interval is
/// left, every other preset stays, and a list in sort order stays in order.
pub proof fn law_removing_a_recurrence_preset(s: Seq<RecurrencePreset>, f: RecurrencePreset)
    ensures
        !holds_recurrence(without_recurrence(s, f), f),
        forall|g: RecurrencePreset| #[trigger] s.contains(g) && !is_recurrence(g, f) ==> without_recurrence(s, f).contains(g),
        in_key_order(s, recurrence_order()) ==> in_key_order(without_recurrence(s, f), recurrence_order()),
{
    let keep = |c: RecurrencePreset| !is_recurrence(c, f);
    lemma_kept(s, keep, recurrence_order());
    let r = without_recurrence(s, f);
    assert forall|i: int| 0 <= i < r.len() implies !#[trigger] is_recurrence(r[i], f) by {
        assert(r.contains(r[i]));
    }
}

/// Saves `preset` among the recurrence presets, in sort order.
///
/// Nothing changes when the preset is invalid, when [`MAX_SAVED`] presets
/// are saved already, or when one with the same unit and interval is there.
pub fn add_recurrence_preset(settings: &mut UserSettings, preset: RecurrencePreset)
    ensures
        final(settings).recurrence_presets@ == with_recurrence(old(settings).recurrence_presets@, preset),
        final(settings)@ == with_recurrences(old(settings)@, final(settings)@.recurrence_presets),
{
    if !preset.is_valid() || settings.recurrence_presets.len() >= MAX_SAVED {
        assert(final(settings)@ =~= with_recurrences(old(settings)@, final(settings)@.recurrence_presets));
        return;
    }
    if position_of_recurrence(&settings.recurrence_presets, &preset).is_some() {
        assert(final(settings)@ =~= with_recurrences(old(settings)@, final(settings)@.recurrence_presets));
        return;
    }
    let mut list: Vec<RecurrencePreset> = Vec::new();
    std::mem::swap(&mut list, &mut settings.recurrence_presets);
    list.push(preset);
    let sorted = sort_by_key(key_recurrences(list));
    settings.recurrence_presets = unkey(sorted);
}

/// Gives the first recurrence preset with the unit and interval of `renamed`
/// the name of `renamed`; nothing changes when there is none.
pub fn rename_recurrence_preset(settings: &mut UserSettings, renamed: RecurrencePreset)
    ensures
        !holds_recurrence(old(settings).recurrence_presets@, renamed) ==> final(settings)@ == old(settings)@,
        holds_recurrence(old(settings).recurrence_presets@, renamed) ==> exists|k: int|
            first_recurrence(old(settings).recurrence_presets@, renamed, k)
            && final(settings).recurrence_presets@ == old(settings).recurrence_presets@.update(
                k,
                (RecurrencePreset {
                    unit: old(settings).recurrence_presets@[k].unit,
                    interval: old(settings).recurrence_presets@[k].interval,
                    name: renamed.name,
                }),
            ),
        final(settings)@ == with_recurrences(old(settings)@, final(settings)@.recurrence_presets),
{
    match position_of_recurrence(&settings.recurrence_presets, &renamed) {
        None => {
            assert(final(settings)@ =~= with_recurrences(old(settings)@, final(settings)@.recurrence_presets));
        },
        Some(k) => {
            let unit = settings.recurrence_presets[k].unit;
            let interval = settings.recurrence_presets[k].interval;
            settings.recurrence_presets.set(k, RecurrencePreset { unit, interval, name: renamed.name });
            assert(final(settings)@ =~= with_recurrences(old(settings)@, final(settings)@.recurrence_presets));
        },
    }
}

/// Forgets every recurrence preset with the unit and interval of `preset`.
pub fn remove_recurrence_preset(settings: &mut UserSettings, preset: &RecurrencePreset)
    ensures
        final(settings).recurrence_presets@ == without_recurrence(old(settings).recurrence_presets@, *preset),
        final(settings)@ == with_recurrences(old(settings)@, final(settings)@.recurrence_presets),
{
    let mut list: Vec<RecurrencePreset> = Vec::new();
    std::mem::swap(&mut list, &mut settings.recurrence_presets);
    let ghost all = list@;
    let mut out: Vec<RecurrencePreset> = Vec::new();
    let mut i: usize = 0;
    let n = list.len();
    assert(all.skip(0) =~= all);
    while list.len() > 0
        invariant
            n == all.len(),
            i + list@.len() == n,
            list@ == all.skip(i as int),
            out@ == without_recurrence(all.take(i as int), *preset),
        decreases list@.len(),
    {
        let f = list.remove(0);
        proof {
            assert(all.take(i + 1).drop_last() =~= all.take(i as int));
            assert(list@ =~= all.skip(i + 1));
        }
        if !f.same_pattern(preset) {
            out.push(f);
        }
        i = i + 1;
    }
    assert(all.take(n as int) =~= all);
    settings.recurrence_presets = out;
    assert(final(settings)@ =~= with_recurrences(old(settings)@, final(settings)@.recurrence_presets));
}

// ---------------------------------------------------------------------------
// Reminder presets

pub open spec fn is_reminder(f: ReminderPreset, other: ReminderPreset) -> bool {
    f.unit == other.unit && f.value == other.value
}

/// Some preset of `s` has the unit and amount of `f`.
pub open spec fn holds_reminder(s: Seq<ReminderPreset>, f: ReminderPreset) -> bool {
    exists|i: int| 0 <= i < s.len() && #[trigger] is_reminder(s[i], f)
}

/// `k` is the first preset of `s` with the unit and amount of `f`.
pub open spec fn first_reminder(s: Seq<ReminderPreset>, f: ReminderPreset, k: int) -> bool {
    &&& 0 <= k < s.len()
    &&& is_reminder(s[k], f)
    &&& forall|j: int| 0 <= j < k ==> !#[trigger] is_reminder(s[j], f)
}

/// The order reminder presets are listed in.
pub open spec fn reminder_order() -> spec_fn(ReminderPreset) -> i128 {
    |f: ReminderPreset| reminder_key(f) as i128
}

pub open spec fn keyed_all_reminders(s: Seq<ReminderPreset>) -> Seq<(i128, ReminderPreset)> {
    keyed_by(s, reminder_order())
}

/// `s` after adding `f`: listed in sort order when it is valid, the list has
/// room and no preset with its unit and value is there yet; `s` otherwise.
pub open spec fn with_reminder(s: Seq<ReminderPreset>, f: ReminderPreset) -> Seq<ReminderPreset> {
    if reminder_valid(f) && s.len() < MAX_SAVED && !holds_reminder(s, f) {
        sorted_on(s.push(f), reminder_order())
    } else {
        s
    }
}

/// `s` without the presets that have the unit and value of `f`.
pub open spec fn without_reminder(s: Seq<ReminderPreset>, f: ReminderPreset) -> Seq<ReminderPreset> {
    kept(s, |c: ReminderPreset| !is_reminder(c, f))
}

fn key_reminders(v: Vec<ReminderPreset>) -> (r: Vec<(i128, ReminderPreset)>)
    ensures
        r@ == keyed_all_reminders(v@),
{
    let ghost all = v@;
    let mut rest = v;
    let mut out: Vec<(i128, ReminderPreset)> = Vec::new();
    let mut i: usize = 0;
    let n = rest.len();
    assert(all.skip(0) =~= all);
    while rest.len() > 0
        invariant
            n == all.len(),
            i + rest@.len() == n,
            rest@ == all.skip(i as int),
            out@ == keyed_all_reminders(all.take(i as int)),
        decreases rest@.len(),
    {
        let f = rest.remove(0);
        assert(rest@ =~= all.skip(i + 1));
        let key = reminder_key_of(&f);
        out.push((key, f));
        assert(out@ =~= keyed_all_reminders(all.take(i + 1)));
        i = i + 1;
    }
    assert(all.take(n as int) =~= all);
    out
}

fn position_of_reminder(s: &Vec<ReminderPreset>, f: &ReminderPreset) -> (r: Option<usize>)
    ensures
        match r {
            Some(k) => first_reminder(s@, *f, k as int),
            None => !holds_reminder(s@, *f),
        },
{
    let mut i: usize = 0;
    while i < s.len()
        invariant
            i <= s@.len(),
            forall|j: int| 0 <= j < i ==> !#[trigger] is_reminder(s@[j], *f),
        decreases s@.len() - i,
    {
        if s[i].same_offset(f) {
            return Some(i);
        }
        i = i + 1;
    }
    None
}


/// Adding a reminder preset never takes the list past [`MAX_SAVED`]; a
/// valid preset added while there is room is then listed; and a list in sort
/// order stays in sort order.
pub proof fn law_adding_a_reminder_preset(s: Seq<ReminderPreset>, f: ReminderPreset)
    requires
        s.len() <= MAX_SAVED,
    ensures
        with_reminder(s, f).len() <= MAX_SAVED,
        reminder_valid(f) && s.len() < MAX_SAVED ==> holds_reminder(with_reminder(s, f), f),
        in_key_order(s, reminder_order()) ==> in_key_order(with_reminder(s, f), reminder_order()),
{
    lemma_sorted_on(s.push(f), reminder_order());
    let r = with_reminder(s, f);
    if reminder_valid(f) && s.len() < MAX_SAVED {
        if holds_reminder(s, f) {
        } else {
            assert(s.push(f)[s.len() as int] == f);
            assert(s.push(f).contains(f));
            assert(r.contains(f));
            let i = choose|i: int| 0 <= i < r.len() && r[i] == f;
            assert(is_reminder(r[i], f));
        }
    }
}

/// After removing a reminder preset no preset with its unit and value is
/// left, every other preset stays, and a list in sort order stays in order.
pub proof fn law_removing_a_reminder_preset(s: Seq<ReminderPreset>, f: ReminderPreset)
    ensures
        !holds_reminder(without_reminder(s, f), f),
        forall|g: ReminderPreset| #[trigger] s.contains(g) && !is_reminder(g, f) ==> without_reminder(s, f).contains(g),
        in_key_order(s, reminder_order()) ==> in_key_order(without_reminder(s, f), reminder_order()),
{
    let keep = |c: ReminderPreset| !is_reminder(c, f);
    lemma_kept(s, keep, reminder_order());
    let r = without_reminder(s, f);
    assert forall|i: int| 0 <= i < r.len() implies !#[trigger] is_reminder(r[i], f) by {
        assert(r.contains(r[i]));
    }
}

/// Saves `preset` among the reminder presets, in sort order.
///
/// Nothing changes when the preset is invalid, when [`MAX_SAVED`] presets
/// are saved already, or when one with the same unit and value is there.
pub fn add_reminder_preset(settings: &mut UserSettings, preset: ReminderPreset)
    ensures
        final(settings).reminder_presets@ == with_reminder(old(settings).reminder_presets@, preset),
        final(settings)@ == with_reminders(old(settings)@, final(settings)@.reminder_presets),
{
    if !preset.is_valid() || settings.reminder_presets.len() >= MAX_SAVED {
        assert(final(settings)@ =~= with_reminders(old(settings)@, final(settings)@.reminder_presets));
        return;
    }
    if position_of_reminder(&settings.reminder_presets, &preset).is_some() {
        assert(final(settings)@ =~= with_reminders(old(settings)@, final(settings)@.reminder_presets));
        return;
    }
    let mut list: Vec<ReminderPreset> = Vec::new();
    std::mem::swap(&mut list, &mut settings.reminder_presets);
    list.push(preset);
    let sorted = sort_by_key(key_reminders(list));
    settings.reminder_presets = unkey(sorted);
}

/// Gives the first reminder preset with the unit and value of `renamed`
/// the name of `renamed`; nothing changes when there is none.
pub fn rename_reminder_preset(settings: &mut UserSettings, renamed: ReminderPreset)
    ensures
        !holds_reminder(old(settings).reminder_presets@, renamed) ==> final(settings)@ == old(settings)@,
        holds_reminder(old(settings).reminder_presets@, renamed) ==> exists|k: int|
            first_reminder(old(settings).reminder_presets@, renamed, k)
            && final(settings).reminder_presets@ == old(settings).reminder_presets@.update(
                k,
                (ReminderPreset {
                    unit: old(settings).reminder_presets@[k].unit,
                    value: old(settings).reminder_presets@[k].value,
                    name: renamed.name,
                }),
            ),
        final(settings)@ == with_reminders(old(settings)@, final(settings)@.reminder_presets),
{
    match position_of_reminder(&settings.reminder_presets, &renamed) {
        None => {
            assert(final(settings)@ =~= with_reminders(old(settings)@, final(settings)@.reminder_presets));
        },
        Some(k) => {
            let unit = settings.reminder_presets[k].unit;
            let value = settings.reminder_presets[k].value;
            settings.reminder_presets.set(k, ReminderPreset { unit, value, name: renamed.name });
            assert(final(settings)@ =~= with_reminders(old(settings)@, final(settings)@.reminder_presets));
        },
    }
}

/// Forgets every reminder preset with the unit and value of `preset`.
pub fn remove_reminder_preset(settings: &mut UserSettings, preset: &ReminderPreset)
    ensures
        final(settings).reminder_presets@ == without_reminder(old(settings).reminder_presets@, *preset),
        final(settings)@ == with_reminders(old(settings)@, final(settings)@.reminder_presets),
{
    let mut list: Vec<ReminderPreset> = Vec::new();
    std::mem::swap(&mut list, &mut settings.reminder_presets);
    let ghost all = list@;
    let mut out: Vec<ReminderPreset> = Vec::new();
    let mut i: usize = 0;
    let n = list.len();
    assert(all.skip(0) =~= all);
    while list.len() > 0
        invariant
            n == all.len(),
            i + list@.len() == n,
            list@ == all.skip(i as int),
            out@ == without_reminder(all.take(i as int), *preset),
        decreases list@.len(),
    {
        let f = list.remove(0);
        proof {
            assert(all.take(i + 1).drop_last() =~= all.take(i as int));
            assert(list@ =~= all.skip(i + 1));
        }
        if !f.same_offset(preset) {
            out.push(f);
        }
        i = i + 1;
    }
    assert(all.take(n as int) =~= all);
    settings.reminder_presets = out;
    assert(final(settings)@ =~= with_reminders(old(settings)@, final(settings)@.reminder_presets));
}

// ---------------------------------------------------------------------------
// Due buttons and single preferences

/// `settings` with only its due buttons replaced by `buttons`.
pub open spec fn with_buttons(settings: SettingsView, buttons: Seq<(Seq<char>, Seq<char>, bool, Seq<char>)>) -> SettingsView {
    SettingsView { due_buttons: buttons, ..settings }
}

/// Some button of `s` has the key `key`.
pub open spec fn holds_button(s: Seq<DueButtonPreference>, key: Seq<char>) -> bool {
    exists|i: int| 0 <= i < s.len() && (#[trigger] s[i]).key@ == key
}

/// `k` is the first button of `s` with the key `key`.
pub open spec fn first_button(s: Seq<DueButtonPreference>, key: Seq<char>, k: int) -> bool {
    &&& 0 <= k < s.len()
    &&& s[k].key@ == key
    &&& forall|j: int| 0 <= j < k ==> (#[trigger] s[j]).key@ != key
}

fn position_of_button(s: &Vec<DueButtonPreference>, key: &str) -> (r: Option<usize>)
    ensures
        match r {
            Some(k) => first_button(s@, key@, k as int),
            None => !holds_button(s@, key@),
        },
{
    let mut i: usize = 0;
    while i < s.len()
        invariant
            i <= s@.len(),
            forall|j: int| 0 <= j < i ==> (#[trigger] s@[j]).key@ != key@,
        decreases s@.len() - i,
    {
        if same_text(s[i].key.as_str(), key) {
            return Some(i);
        }
        i = i + 1;
    }
    None
}

/// Shows or hides the first due button with the key `key`; nothing changes
/// when there is none.
pub fn set_due_button_visible(settings: &mut UserSettings, key: &str, visible: bool)
    ensures
        !holds_button(old(settings).due_buttons@, key@) ==> final(settings)@ == old(settings)@,
        holds_button(old(settings).due_buttons@, key@) ==> exists|k: int|
            first_button(old(settings).due_buttons@, key@, k)
            && final(settings).due_buttons@ == old(settings).due_buttons@.update(
                k,
                (DueButtonPreference {
                    key: old(settings).due_buttons@[k].key,
                    query: old(settings).due_buttons@[k].query,
                    visible: visible,
                    name: old(settings).due_buttons@[k].name,
                }),
            ),
        final(settings)@ == with_buttons(old(settings)@, final(settings)@.due_buttons),
{
    match position_of_button(&settings.due_buttons, key) {
        None => {
            assert(final(settings)@ =~= with_buttons(old(settings)@, final(settings)@.due_buttons));
        },
        Some(k) => {
            let mut list: Vec<DueButtonPreference> = Vec::new();
            std::mem::swap(&mut list, &mut settings.due_buttons);
            let ghost before = list@;
            let b = list.remove(k);
            list.insert(k, DueButtonPreference { key: b.key, query: b.query, visible, name: b.name });
            assert(list@ =~= before.update(
                k as int,
                DueButtonPreference { key: before[k as int].key, query: before[k as int].query, visible: visible, name: before[k as int].name },
            ));
            settings.due_buttons = list;
            assert(final(settings)@ =~= with_buttons(old(settings)@, final(settings)@.due_buttons));
        },
    }
}

/// Renames the first due button with the key `key` to `name`, cleaned as
/// every saved name is; nothing changes when there is none.
pub fn rename_due_button(settings: &mut UserSettings, key: &str, name: &str)
    ensures
        !holds_button(old(settings).due_buttons@, key@) ==> final(settings)@ == old(settings)@,
        holds_button(old(settings).due_buttons@, key@) ==> exists|k: int|
            first_button(old(settings).due_buttons@, key@, k)
            && final(settings)@.due_buttons == old(settings)@.due_buttons.update(
                k,
                (
                    old(settings).due_buttons@[k].key@,
                    old(settings).due_buttons@[k].query@,
                    old(settings).due_buttons@[k].visible,
                    cleaned(name@),
                ),
            ),
        final(settings)@ == with_buttons(old(settings)@, final(settings)@.due_buttons),
{
    let clean = clean_name(name);
    match position_of_button(&settings.due_buttons, key) {
        None => {
            assert(final(settings)@ =~= with_buttons(old(settings)@, final(settings)@.due_buttons));
        },
        Some(k) => {
            let mut list: Vec<DueButtonPreference> = Vec::new();
            std::mem::swap(&mut list, &mut settings.due_buttons);
            let ghost before = list@;
            let b = list.remove(k);
            list.insert(k, DueButtonPreference { key: b.key, query: b.query, visible: b.visible, name: clean });
            settings.due_buttons = list;
            assert(final(settings)@.due_buttons =~= old(settings)@.due_buttons.update(
                k as int,
                (before[k as int].key@, before[k as int].query@, before[k as int].visible, cleaned(name@)),
            ));
            assert(final(settings)@ =~= with_buttons(old(settings)@, final(settings)@.due_buttons));
        },
    }
}

/// The week starts on `week_start` when it is `sunday` or `monday`; any
/// other value leaves the settings as they were.
pub fn set_week_start(settings: &mut UserSettings, week_start: String) -> (r: bool)
    ensures
        r == (week_start@ == "sunday"@ || week_start@ == "monday"@),
        r ==> final(settings)@ == (SettingsView { week_start: week_start@, ..old(settings)@ }),
        !r ==> final(settings)@ == old(settings)@,
{
    let accepted = same_text(week_start.as_str(), "sunday") || same_text(week_start.as_str(), "monday");
    if accepted {
        settings.week_start = week_start;
        assert(final(settings)@ =~= (SettingsView { week_start: week_start@, ..old(settings)@ }));
    }
    accepted
}

/// The font size becomes `font_size` when it lies from [`MIN_FONT_SIZE`] to
/// [`MAX_FONT_SIZE`]; any other size leaves the settings as they were.
pub fn set_font_size(settings: &mut UserSettings, font_size: i32) -> (r: bool)
    ensures
        r == (MIN_FONT_SIZE <= font_size <= MAX_FONT_SIZE),
        r ==> final(settings)@ == (SettingsView { font_size: font_size, ..old(settings)@ }),
        !r ==> final(settings)@ == old(settings)@,
{
    let accepted = MIN_FONT_SIZE <= font_size && font_size <= MAX_FONT_SIZE;
    if accepted {
        settings.font_size = font_size;
        assert(final(settings)@ =~= (SettingsView { font_size: font_size, ..old(settings)@ }));
    }
    accepted
}

/// Switches the language to the bundled catalogue that `locale` names and
/// returns that catalogue's tag; a locale with no bundled catalogue leaves the
/// settings as they were and gives `None`.
pub fn set_language(settings: &mut UserSettings, locale: &str) -> (r: Option<&'static str>)
    ensures
        match r {
            Some(tag) => supported_locale(locale@) == Some(tag@)
                && final(settings)@ == (SettingsView { language: tag@, ..old(settings)@ }),
            None => supported_locale(locale@) is None && final(settings)@ == old(settings)@,
        },
{
    let r = supported(locale);
    if let Some(tag) = r {
        settings.language = tag.to_owned();
        assert(final(settings)@ =~= (SettingsView { language: tag@, ..old(settings)@ }));
    }
    r
}

// ---------------------------------------------------------------------------
// Time zone and date-time formats

/// The time zone becomes `timezone`, trimmed, unless nothing is left of it.
pub fn set_timezone(settings: &mut UserSettings, timezone: &str) -> (r: bool)
    ensures
        r == (trimmed(timezone@).len() > 0),
        r ==> final(settings)@ == (SettingsView { timezone: trimmed(timezone@), ..old(settings)@ }),
        !r ==> final(settings)@ == old(settings)@,
{
    let t = trim(timezone);
    if t.as_str().unicode_len() == 0 {
        return false;
    }
    settings.timezone = t;
    assert(final(settings)@ =~= (SettingsView { timezone: trimmed(timezone@), ..old(settings)@ }));
    true
}

/// The ids of the user's own date-time formats.
pub open spec fn ids(s: SettingsView) -> Seq<Seq<char>> {
    s.datetime_formats.map_values(|f: (Seq<char>, Seq<char>, Seq<char>, DateTimeFormatKind, i32)| f.0)
}

/// The highest order among `fs`, or 99 when there is none.
pub open spec fn highest_order(fs: Seq<(Seq<char>, Seq<char>, Seq<char>, DateTimeFormatKind, i32)>) -> int
    decreases fs.len(),
{
    if fs.len() == 0 {
        99
    } else {
        let rest = highest_order(fs.drop_last());
        if fs.len() == 1 || fs.last().4 > rest {
            fs.last().4 as int
        } else {
            rest
        }
    }
}

/// The order a newly added format gets: after every other, 100 for the first.
pub open spec fn next_format_order(s: SettingsView) -> int {
    highest_order(s.datetime_formats) + 1
}

/// The format added under `id` with the trimmed `name` and the pattern `value`.
pub open spec fn added_format(s: SettingsView, name: Seq<char>, value: Seq<char>, id: Seq<char>) -> (
    Seq<char>,
    Seq<char>,
    Seq<char>,
    DateTimeFormatKind,
    i32,
) {
    (id, trimmed(name), value, DateTimeFormatKind::CustomFormat, next_format_order(s) as i32)
}

/// `s` with that format appended to the user's formats and selected.
pub open spec fn with_added_format(s: SettingsView, name: Seq<char>, value: Seq<char>, id: Seq<char>) -> SettingsView {
    SettingsView {
        datetime_format: added_format(s, name, value, id),
        datetime_formats: s.datetime_formats.push(added_format(s, name, value, id)),
        ..s
    }
}

/// Whether one more format can be given an order without passing `i32::MAX`.
pub fn has_order_room(settings: &UserSettings) -> (r: bool)
    ensures
        r == (next_format_order(settings@) <= i32::MAX),
{
    let fs = &settings.datetime_formats;
    let ghost all = settings@.datetime_formats;
    let mut highest: i32 = 99;
    let mut i: usize = 0;
    while i < fs.len()
        invariant
            i <= fs@.len(),
            all == formats_view(fs@),
            highest == highest_order(all.take(i as int)),
        decreases fs@.len() - i,
    {
        assert(all.take(i + 1).drop_last() =~= all.take(i as int));
        if i == 0 || fs[i].order > highest {
            highest = fs[i].order;
        }
        i = i + 1;
    }
    assert(all.take(fs@.len() as int) =~= all);
    highest < i32::MAX
}

fn has_format_id(fs: &Vec<DateTimeFormatPreference>, id: &str) -> (r: bool)
    ensures
        r == formats_view(fs@).map_values(|f: (Seq<char>, Seq<char>, Seq<char>, DateTimeFormatKind, i32)| f.0).contains(id@),
{
    let ghost v = formats_view(fs@).map_values(|f: (Seq<char>, Seq<char>, Seq<char>, DateTimeFormatKind, i32)| f.0);
    let mut i: usize = 0;
    while i < fs.len()
        invariant
            i <= fs@.len(),
            v == formats_view(fs@).map_values(|f: (Seq<char>, Seq<char>, Seq<char>, DateTimeFormatKind, i32)| f.0),
            forall|k: int| 0 <= k < i ==> v[k] != id@,
        decreases fs@.len() - i,
    {
        if same_text(fs[i].id.as_str(), id) {
            assert(v[i as int] == id@);
            return true;
        }
        i = i + 1;
    }
    false
}

/// Adds a format under `id`, named `name` trimmed, and selects it. Nothing
/// changes when the trimmed name is empty or a format already has the id.
pub fn add_datetime_format_with_id(settings: &mut UserSettings, name: &str, value: &str, id: &str) -> (r: bool)
    requires
        next_format_order(old(settings)@) <= i32::MAX,
    ensures
        r == (trimmed(name@).len() > 0 && !ids(old(settings)@).contains(id@)),
        r ==> final(settings)@ == with_added_format(old(settings)@, name@, value@, id@),
        !r ==> final(settings)@ == old(settings)@,
{
    let clean = trim(name);
    if clean.as_str().unicode_len() == 0 {
        return false;
    }
    if has_format_id(&settings.datetime_formats, id) {
        return false;
    }
    let fs = &settings.datetime_formats;
    let ghost all = settings@.datetime_formats;
    let mut highest: i32 = 99;
    let mut i: usize = 0;
    while i < fs.len()
        invariant
            i <= fs@.len(),
            all == formats_view(fs@),
            highest == highest_order(all.take(i as int)),
        decreases fs@.len() - i,
    {
        assert(all.take(i + 1).drop_last() =~= all.take(i as int));
        if i == 0 || fs[i].order > highest {
            highest = fs[i].order;
        }
        i = i + 1;
    }
    assert(all.take(fs@.len() as int) =~= all);
    let order = highest + 1;
    let ghost before = settings@;
    settings.datetime_formats.push(crate::settings::datetime_format::format(id, clean.as_str(), value, DateTimeFormatKind::CustomFormat, order));
    settings.datetime_format = crate::settings::datetime_format::format(id, clean.as_str(), value, DateTimeFormatKind::CustomFormat, order);
    assert(final(settings)@.datetime_formats =~= before.datetime_formats.push(added_format(before, name@, value@, id@)));
    assert(final(settings)@ =~= with_added_format(before, name@, value@, id@));
    true
}

/// Calls `uuid::Uuid::new_v4` and writes the id in its hyphenated form. The
/// id is random, and nothing is stated of it.
#[verifier::external_body]
fn new_format_id() -> (r: String) {
    uuid::Uuid::new_v4().to_string()
}

/// The most fresh ids drawn for one new format before giving up.
pub const ID_DRAWS: usize = 10;

/// Adds a format named `name` (trimmed) with the pattern `value` under a fresh
/// random id, after every other format, and selects it. Up to [`ID_DRAWS`]
/// ids are drawn until one is not in use; when none is free, or the trimmed
/// name is empty, nothing changes.
pub fn add_datetime_format(settings: &mut UserSettings, name: &str, value: &str) -> (r: bool)
    requires
        next_format_order(old(settings)@) <= i32::MAX,
    ensures
        trimmed(name@).len() == 0 ==> !r,
        r ==> exists|id: Seq<char>|
            !ids(old(settings)@).contains(id)
            && final(settings)@ == with_added_format(old(settings)@, name@, value@, id),
        !r ==> final(settings)@ == old(settings)@,
{
    let clean = trim(name);
    if clean.as_str().unicode_len() == 0 {
        return false;
    }
    let mut draw: usize = 0;
    while draw < ID_DRAWS
        invariant
            settings@ == old(settings)@,
            next_format_order(old(settings)@) <= i32::MAX,
        decreases ID_DRAWS - draw,
    {
        let id = new_format_id();
        if add_datetime_format_with_id(settings, name, value, id.as_str()) {
            return true;
        }
        draw = draw + 1;
    }
    false
}

/// The first of `fs` at or after `i` with the id `id`.
pub open spec fn format_with_id(fs: Seq<(Seq<char>, Seq<char>, Seq<char>, DateTimeFormatKind, i32)>, id: Seq<char>, i: int) -> Option<int>
    decreases fs.len() - i,
{
    if i < 0 || i >= fs.len() {
        None
    } else if fs[i].0 == id {
        Some(i)
    } else {
        format_with_id(fs, id, i + 1)
    }
}

/// `s` after the first format with `id` takes the trimmed `name` and the
/// pattern `value` and is selected; `None` when no format has the id.
pub open spec fn overwritten(s: SettingsView, id: Seq<char>, name: Seq<char>, value: Seq<char>) -> Option<SettingsView> {
    match format_with_id(s.datetime_formats, id, 0) {
        Some(k) => {
            let f = s.datetime_formats[k];
            let g = (f.0, trimmed(name), value, f.3, f.4);
            Some(SettingsView { datetime_format: g, datetime_formats: s.datetime_formats.update(k, g), ..s })
        },
        None => None,
    }
}

/// Gives the user's format `id` the trimmed `name` and the pattern `value`
/// and selects it. Nothing changes when the trimmed name is empty or no
/// format has the id.
pub fn overwrite_datetime_format(settings: &mut UserSettings, id: &str, name: &str, value: &str) -> (r: bool)
    ensures
        r == (trimmed(name@).len() > 0 && overwritten(old(settings)@, id@, name@, value@) is Some),
        r ==> Some(final(settings)@) == overwritten(old(settings)@, id@, name@, value@),
        !r ==> final(settings)@ == old(settings)@,
{
    let clean = trim(name);
    if clean.as_str().unicode_len() == 0 {
        return false;
    }
    let ghost all = settings@.datetime_formats;
    let mut i: usize = 0;
    while i < settings.datetime_formats.len()
        invariant
            i <= settings.datetime_formats@.len(),
            settings@ == old(settings)@,
            all == settings@.datetime_formats,
            clean@ == trimmed(name@),
            trimmed(name@).len() > 0,
            format_with_id(all, id@, i as int) == format_with_id(all, id@, 0),
        decreases settings.datetime_formats@.len() - i,
    {
        if same_text(settings.datetime_formats[i].id.as_str(), id) {
            assert(all[i as int].0 == id@);
            assert(format_with_id(all, id@, i as int) == Some(i as int));
            let kind = settings.datetime_formats[i].kind;
            let order = settings.datetime_formats[i].order;
            let ghost before = settings@;
            settings.datetime_formats.set(i, crate::settings::datetime_format::format(id, clean.as_str(), value, kind, order));
            settings.datetime_format = crate::settings::datetime_format::format(id, clean.as_str(), value, kind, order);
            proof {
                let g = (all[i as int].0, trimmed(name@), value@, kind, order);
                assert(final(settings)@.datetime_formats =~= all.update(i as int, g));
                assert(final(settings)@ =~= (SettingsView { datetime_format: g, datetime_formats: all.update(i as int, g), ..before }));
            }
            return true;
        }
        i = i + 1;
    }
    false
}

/// `fs` without the formats with the id `id`.
pub open spec fn without_format(fs: Seq<(Seq<char>, Seq<char>, Seq<char>, DateTimeFormatKind, i32)>, id: Seq<char>) -> Seq<(Seq<char>, Seq<char>, Seq<char>, DateTimeFormatKind, i32)> {
    kept(fs, |f: (Seq<char>, Seq<char>, Seq<char>, DateTimeFormatKind, i32)| f.0 != id)
}

/// The default format, as stored.
pub open spec fn default_format() -> (Seq<char>, Seq<char>, Seq<char>, DateTimeFormatKind, i32) {
    ("-1"@, "default"@, Seq::empty(), DateTimeFormatKind::Default, 0)
}

/// Forgets the user's formats with the id `id`; when the selected format has
/// that id, the default is selected instead.
pub fn delete_datetime_format(settings: &mut UserSettings, id: &str)
    ensures
        final(settings)@ == (SettingsView {
            datetime_formats: without_format(old(settings)@.datetime_formats, id@),
            datetime_format: if old(settings)@.datetime_format.0 == id@ {
                default_format()
            } else {
                old(settings)@.datetime_format
            },
            ..old(settings)@
        }),
{
    let ghost before = settings@;
    let mut list: Vec<DateTimeFormatPreference> = Vec::new();
    std::mem::swap(&mut list, &mut settings.datetime_formats);
    let ghost all = formats_view(list@);
    let mut out: Vec<DateTimeFormatPreference> = Vec::new();
    let mut i: usize = 0;
    let n = list.len();
    while list.len() > 0
        invariant
            n == all.len(),
            i + list@.len() == n,
            formats_view(list@) == all.skip(i as int),
            formats_view(out@) == without_format(all.take(i as int), id@),
        decreases list@.len(),
    {
        let ghost lb = list@;
        let f = list.remove(0);
        proof {
            assert(list@ =~= lb.skip(1));
            assert(formats_view(lb)[0] == format_view(f));
            assert(formats_view(list@) =~= formats_view(lb).skip(1));
            assert(formats_view(lb).skip(1) =~= all.skip(i + 1));
            assert(all.skip(i as int)[0] == format_view(f));
            assert(all.take(i + 1).drop_last() =~= all.take(i as int));
            assert(all.take(i + 1).last() == format_view(f));
            assert(formats_view(list@) =~= all.skip(i + 1));
        }
        let ghost o = out@;
        if !same_text(f.id.as_str(), id) {
            out.push(f);
            assert(formats_view(out@) =~= formats_view(o).push(format_view(f)));
        }
        i = i + 1;
    }
    assert(all.take(n as int) =~= all);
    settings.datetime_formats = out;
    if same_text(settings.datetime_format.id.as_str(), id) {
        settings.datetime_format = DateTimeFormatPreference::default();
    }
    proof {
        reveal_strlit("-1");
        reveal_strlit("default");
    }
    assert(final(settings)@ =~= (SettingsView {
        datetime_formats: without_format(before.datetime_formats, id@),
        datetime_format: if before.datetime_format.0 == id@ {
            default_format()
        } else {
            before.datetime_format
        },
        ..before
    }));
}

/// The first of `fs` at or after `i` with the pattern `value`.
pub open spec fn format_with_pattern(fs: Seq<(Seq<char>, Seq<char>, Seq<char>, DateTimeFormatKind, i32)>, value: Seq<char>, i: int) -> Option<int>
    decreases fs.len() - i,
{
    if i < 0 || i >= fs.len() {
        None
    } else if fs[i].2 == value {
        Some(i)
    } else {
        format_with_pattern(fs, value, i + 1)
    }
}

/// Every format offered in `s`: the built-in ones, then the user's own.
pub open spec fn offered_formats(s: Seq<(Seq<char>, Seq<char>, Seq<char>, DateTimeFormatKind, i32)>) -> Seq<(Seq<char>, Seq<char>, Seq<char>, DateTimeFormatKind, i32)> {
    built_in_views() + s
}

/// The format selected for the pattern `value`: the first offered one with
/// that pattern, else the custom slot holding it.
pub open spec fn format_for_pattern(s: SettingsView, value: Seq<char>) -> (Seq<char>, Seq<char>, Seq<char>, DateTimeFormatKind, i32) {
    let all = offered_formats(s.datetime_formats);
    match format_with_pattern(all, value, 0) {
        Some(k) => all[k],
        None => ("-2"@, "custom"@, value, DateTimeFormatKind::Custom, 40),
    }
}

fn pattern_position(all: &Vec<DateTimeFormatPreference>, value: &str) -> (r: Option<usize>)
    ensures
        match r {
            Some(k) => format_with_pattern(formats_view(all@), value@, 0) == Some(k as int) && k < all@.len(),
            None => format_with_pattern(formats_view(all@), value@, 0) is None,
        },
{
    let ghost v = formats_view(all@);
    let mut i: usize = 0;
    while i < all.len()
        invariant
            i <= all@.len(),
            v == formats_view(all@),
            format_with_pattern(v, value@, i as int) == format_with_pattern(v, value@, 0),
        decreases all@.len() - i,
    {
        if same_text(all[i].format.as_str(), value) {
            return Some(i);
        }
        i = i + 1;
    }
    None
}

/// Selects the offered format with the pattern `value`, or the custom slot
/// holding that pattern when none has it.
pub fn select_datetime_format(settings: &mut UserSettings, value: &str)
    ensures
        final(settings)@ == (SettingsView { datetime_format: format_for_pattern(old(settings)@, value@), ..old(settings)@ }),
{
    let all = all_formats(&settings.datetime_formats);
    let chosen = match pattern_position(&all, value) {
        Some(k) => {
            let f = &all[k];
            crate::settings::datetime_format::format(f.id.as_str(), f.name.as_str(), f.format.as_str(), f.kind, f.order)
        },
        None => crate::settings::datetime_format::format("-2", "custom", value, DateTimeFormatKind::Custom, 40),
    };
    let ghost before = settings@;
    settings.datetime_format = chosen;
    proof {
        reveal_strlit("-2");
        reveal_strlit("custom");
        assert(formats_view(all@) == offered_formats(before.datetime_formats));
    }
    assert(final(settings)@ =~= (SettingsView { datetime_format: format_for_pattern(before, value@), ..before }));
}

/// Where the pattern `value` stands among the offered formats, or 4 (the
/// custom slot) when none has it.
pub open spec fn format_index_of(fs: Seq<(Seq<char>, Seq<char>, Seq<char>, DateTimeFormatKind, i32)>, value: Seq<char>) -> i32 {
    match format_with_pattern(offered_formats(fs), value, 0) {
        Some(k) => if k <= i32::MAX { k as i32 } else { 4 },
        None => 4,
    }
}

/// The position of the pattern `value` among the built-in formats followed
/// by `formats`; 4, the custom slot, when none has it.
pub fn datetime_format_index(formats: &Vec<DateTimeFormatPreference>, value: &str) -> (r: i32)
    ensures
        r == format_index_of(formats_view(formats@), value@),
{
    let all = all_formats(formats);
    match pattern_position(&all, value) {
        Some(k) => if k <= 0x7fff_ffff { k as i32 } else { 4 },
        None => 4,
    }
}

} // verus!
