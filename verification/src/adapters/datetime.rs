//! Calendar fields exchanged with the date and time pickers, and the rules
//! of showing due dates. Instants are nanoseconds since the Unix epoch, UTC.

use vstd::prelude::*;
use std::fmt::Write;
use crate::search::resolve::text_option;
use crate::text::{same_text, trim, trimmed};
use crate::adapters::datetime_input::date_exists;
use crate::search::due::DueKeyword;
use crate::viewmodels::recurrence::calendar::{
    add_days, date_from, day_number, day_number_of, days_later, first_day_number, last_day_number,
    opt_date, valid_date, LocalDate,
};

verus! {

/// The format due dates are shown in when the user chose none.
pub const DEFAULT_DATETIME_FORMAT: &'static str = "%Y-%m-%d %H:%M";

/// Calendar fields shown by the date and time pickers.
#[derive(Debug, Clone, Copy, PartialEq, Eq, Structural)]
pub struct DateTimeParts {
    pub year: i32,
    pub month: i32,
    pub day: i32,
    pub hour: i32,
    pub minute: i32,
}

/// The format to show due dates in: the user's, or the default when the
/// user's is empty.
pub fn effective_format<'a>(format: &'a str) -> (r: &'a str)
    ensures
        r@ == if format@.len() == 0 {
            DEFAULT_DATETIME_FORMAT@
        } else {
            format@
        },
{
    if format.unicode_len() == 0 {
        DEFAULT_DATETIME_FORMAT
    } else {
        format
    }
}

/// Whether a due date has passed at `now`. A completed task is never
/// overdue, and neither is one without a due date.
pub fn is_overdue(due: Option<i128>, completed: bool, now: i128) -> (r: bool)
    ensures
        r == match due {
            Some(d) => !completed && d < now,
            None => false,
        },
{
    match due {
        Some(d) => !completed && d < now,
        None => false,
    }
}


/// How to place an instant on a calendar.
#[derive(Debug, Clone, PartialEq, Eq)]
pub enum DisplayTimezone {
    /// Whatever the operating system reports.
    System,
    /// Always UTC.
    Utc,
    /// A zone of the time zone database, by its name there.
    Named(String),
}

/// The value of a [`DisplayTimezone`].
pub enum ZoneView {
    System,
    Utc,
    Named(Seq<char>),
}

impl View for DisplayTimezone {
    type V = ZoneView;

    open spec fn view(&self) -> ZoneView {
        match self {
            DisplayTimezone::System => ZoneView::System,
            DisplayTimezone::Utc => ZoneView::Utc,
            DisplayTimezone::Named(n) => ZoneView::Named(n@),
        }
    }
}

/// The name of the time zone database entry `text` looks up, if any.
pub uninterp spec fn tz_name(text: Seq<char>) -> Option<Seq<char>>;

/// Calls `chrono_tz::Tz::from_str`, a lookup in the fixed table of zone
/// names, and gives back the found zone's `Tz::name`. The contract names the
/// result and states that a found name looks up to itself.
#[verifier::external_body]
fn parse_tz_name(text: &str) -> (r: Option<String>)
    ensures
        text_option(r) == tz_name(text@),
        r matches Some(n) ==> tz_name(n@) == Some(n@),
{
    match text.parse::<chrono_tz::Tz>() {
        Ok(zone) => Some(zone.name().to_string()),
        Err(_) => None,
    }
}

/// The zone a stored setting names, once trimmed: the system's for an empty
/// setting or `system`, UTC for `UTC` or `GMT`, else the database zone of that
/// name, and the system's again when there is none.
pub open spec fn timezone_setting(t: Seq<char>) -> ZoneView {
    if t.len() == 0 || t == "system"@ {
        ZoneView::System
    } else if t == "UTC"@ || t == "GMT"@ {
        ZoneView::Utc
    } else {
        match tz_name(t) {
            Some(n) => ZoneView::Named(n),
            None => ZoneView::System,
        }
    }
}

/// Reads the time zone setting.
pub fn timezone_from_setting(value: &str) -> (r: DisplayTimezone)
    ensures
        r@ == timezone_setting(trimmed(value@)),
{
    let t = trim(value);
    proof {
        reveal_strlit("system");
        reveal_strlit("UTC");
        reveal_strlit("GMT");
    }
    if t.as_str().unicode_len() == 0 || same_text(t.as_str(), "system") {
        return DisplayTimezone::System;
    }
    if same_text(t.as_str(), "UTC") || same_text(t.as_str(), "GMT") {
        return DisplayTimezone::Utc;
    }
    match parse_tz_name(t.as_str()) {
        Some(n) => DisplayTimezone::Named(n),
        None => DisplayTimezone::System,
    }
}

/// How to render a timestamp.
#[derive(Debug, Clone, PartialEq, Eq)]
pub struct DateTimeDisplaySettings {
    pub timezone: DisplayTimezone,
    pub format: String,
}

impl DateTimeDisplaySettings {
    pub fn new(timezone: &str, format: &str) -> (r: Self)
        ensures
            r.timezone@ == timezone_setting(trimmed(timezone@)),
            r.format@ == format@,
    {
        DateTimeDisplaySettings { timezone: timezone_from_setting(timezone), format: String::from_str(format) }
    }
}

/// Whether an instant (nanoseconds since the Unix epoch, UTC) lies within
/// the range a `chrono::DateTime<Utc>` holds: from the start of January 1 of
/// -262143 to the end of December 31 of 262142.
pub open spec fn representable(instant: int) -> bool {
    first_day_number() * 86_400_000_000_000 <= instant
        <= last_day_number() * 86_400_000_000_000 + 86_399_999_999_999
}

/// The whole seconds of an instant, rounded down.
pub open spec fn whole_seconds(instant: int) -> int {
    instant / 1_000_000_000
}

/// The nanoseconds past the whole seconds of an instant.
pub open spec fn sub_nanos(instant: int) -> int {
    instant % 1_000_000_000
}

/// What `chrono` renders for the pattern at that moment in the named zone.
pub uninterp spec fn strftime_text(secs: int, nanos: int, zone: Seq<char>, pattern: Seq<char>) -> Option<Seq<char>>;

/// What `chrono` renders for the pattern at that moment in UTC.
pub uninterp spec fn strftime_utc_text(secs: int, nanos: int, pattern: Seq<char>) -> Option<Seq<char>>;

/// Whether the seconds and nanoseconds name a moment `chrono` holds.
pub open spec fn moment_in_range(secs: int, nanos: int) -> bool {
    0 <= nanos < 1_000_000_000 && first_day_number() * 86_400 <= secs <= last_day_number() * 86_400 + 86_399
}

/// Calls `chrono::DateTime::from_timestamp`, moves the moment into the
/// `chrono_tz` zone named `zone` and renders `pattern` with
/// `StrftimeItems`; `None` when the zone is unknown, the moment is out of
/// range or the pattern cannot be rendered. The contract names the result and
/// states that the default pattern renders every moment in range in a zone
/// the database knows.
#[verifier::external_body]
fn render_in_zone(secs: i64, nanos: u32, zone: &str, pattern: &str) -> (r: Option<String>)
    ensures
        text_option(r) == strftime_text(secs as int, nanos as int, zone@, pattern@),
        pattern@ == DEFAULT_DATETIME_FORMAT@ && moment_in_range(secs as int, nanos as int)
            && tz_name(zone@) is Some ==> r is Some,
{
    let zone: chrono_tz::Tz = match zone.parse() {
        Ok(z) => z,
        Err(_) => return None,
    };
    let moment = match chrono::DateTime::from_timestamp(secs, nanos) {
        Some(m) => m,
        None => return None,
    };
    let mut out = String::new();
    match write!(&mut out, "{}", moment.with_timezone(&zone).format_with_items(chrono::format::StrftimeItems::new(pattern))) {
        Ok(()) => Some(out),
        Err(_) => None,
    }
}

/// Calls `chrono::DateTime::from_timestamp` and renders `pattern` in UTC with
/// `StrftimeItems`; `None` when the moment is out of range or the pattern
/// cannot be rendered. The contract names the result and states that the
/// default pattern renders every moment in range.
#[verifier::external_body]
fn render_in_utc(secs: i64, nanos: u32, pattern: &str) -> (r: Option<String>)
    ensures
        text_option(r) == strftime_utc_text(secs as int, nanos as int, pattern@),
        pattern@ == DEFAULT_DATETIME_FORMAT@ && moment_in_range(secs as int, nanos as int) ==> r is Some,
{
    let moment = match chrono::DateTime::from_timestamp(secs, nanos) {
        Some(m) => m,
        None => return None,
    };
    let mut out = String::new();
    match write!(&mut out, "{}", moment.format_with_items(chrono::format::StrftimeItems::new(pattern))) {
        Ok(()) => Some(out),
        Err(_) => None,
    }
}

/// Calls `chrono::DateTime::from_timestamp`, moves the moment into
/// `chrono::Local` and renders `pattern` with `StrftimeItems`. The text
/// depends on the machine's zone, so only what holds of every outcome is
/// stated: the default pattern renders every moment in range.
#[verifier::external_body]
fn render_in_system_zone(secs: i64, nanos: u32, pattern: &str) -> (r: Option<String>)
    ensures
        pattern@ == DEFAULT_DATETIME_FORMAT@ && moment_in_range(secs as int, nanos as int) ==> r is Some,
{
    let moment = match chrono::DateTime::from_timestamp(secs, nanos) {
        Some(m) => m,
        None => return None,
    };
    let mut out = String::new();
    match write!(&mut out, "{}", moment.with_timezone(&chrono::Local).format_with_items(chrono::format::StrftimeItems::new(pattern))) {
        Ok(()) => Some(out),
        Err(_) => None,
    }
}

/// The user's rendering when there is one, else the default pattern's.
pub open spec fn rendered_or_default(user: Option<Seq<char>>, fallback: Option<Seq<char>>) -> Seq<char> {
    match user {
        Some(t) => t,
        None => match fallback {
            Some(t) => t,
            None => Seq::empty(),
        },
    }
}

/// The bounds of [`representable`], as instants.
fn instant_bounds() -> (r: (i128, i128))
    ensures
        r.0 == first_day_number() * 86_400_000_000_000,
        r.1 == last_day_number() * 86_400_000_000_000 + 86_399_999_999_999,
{
    let first = day_number_of(LocalDate { year: -262143, month: 1, day: 1 });
    let last = day_number_of(LocalDate { year: 262142, month: 12, day: 31 });
    (first as i128 * 86_400_000_000_000, last as i128 * 86_400_000_000_000 + 86_399_999_999_999)
}

/// The text a pattern renders at the instant in the zone: named for UTC and
/// database zones, left open for the system's.
pub open spec fn rendered(secs: int, nanos: int, zone: ZoneView, pattern: Seq<char>) -> Option<Seq<char>> {
    match zone {
        ZoneView::Utc => strftime_utc_text(secs, nanos, pattern),
        ZoneView::Named(n) => strftime_text(secs, nanos, n, pattern),
        ZoneView::System => None,
    }
}

fn render(secs: i64, nanos: u32, zone: &DisplayTimezone, pattern: &str) -> (r: Option<String>)
    ensures
        !(zone@ is System) ==> text_option(r) == rendered(secs as int, nanos as int, zone@, pattern@),
        pattern@ == DEFAULT_DATETIME_FORMAT@ && moment_in_range(secs as int, nanos as int)
            && (zone@ matches ZoneView::Named(n) ==> tz_name(n) is Some) ==> r is Some,
{
    match zone {
        DisplayTimezone::Utc => render_in_utc(secs, nanos, pattern),
        DisplayTimezone::Named(n) => render_in_zone(secs, nanos, n.as_str(), pattern),
        DisplayTimezone::System => render_in_system_zone(secs, nanos, pattern),
    }
}

/// Renders an instant in the user's pattern (the default one when the
/// user's is empty) and zone; `None` when the pattern cannot be rendered.
pub fn try_format(instant: i128, settings: &DateTimeDisplaySettings) -> (r: Option<String>)
    requires
        representable(instant as int),
    ensures
        !(settings.timezone@ is System) ==> text_option(r) == rendered(
            whole_seconds(instant as int),
            sub_nanos(instant as int),
            settings.timezone@,
            if settings.format@.len() == 0 { DEFAULT_DATETIME_FORMAT@ } else { settings.format@ },
        ),
{
    let secs = instant.checked_div_euclid(1_000_000_000).unwrap();
    let nanos = instant.checked_rem_euclid(1_000_000_000).unwrap();
    proof {
        lemma_seconds_in_range(instant as int);
    }
    render(secs as i64, nanos as u32, &settings.timezone, effective_format(settings.format.as_str()))
}

/// Renders a due date in the user's pattern (the default one when the user's
/// is empty) and zone, falling back to the default pattern when the user's
/// cannot be rendered.
pub fn format_due(instant: i128, settings: &DateTimeDisplaySettings) -> (r: String)
    requires
        representable(instant as int),
    ensures
        ({
            let secs = whole_seconds(instant as int);
            let nanos = sub_nanos(instant as int);
            let pattern = if settings.format@.len() == 0 { DEFAULT_DATETIME_FORMAT@ } else { settings.format@ };
            match settings.timezone@ {
                ZoneView::Utc => r@ == rendered_or_default(
                    strftime_utc_text(secs, nanos, pattern),
                    strftime_utc_text(secs, nanos, DEFAULT_DATETIME_FORMAT@),
                ),
                ZoneView::Named(n) => r@ == rendered_or_default(
                    strftime_text(secs, nanos, n, pattern),
                    strftime_text(secs, nanos, n, DEFAULT_DATETIME_FORMAT@),
                ),
                ZoneView::System => true,
            }
        }),
{
    let secs128 = instant.checked_div_euclid(1_000_000_000).unwrap();
    let nanos128 = instant.checked_rem_euclid(1_000_000_000).unwrap();
    proof {
        assert(first_day_number() * 86_400_000_000_000 == (first_day_number() * 86_400) * 1_000_000_000);
        assert(last_day_number() * 86_400_000_000_000 + 86_399_999_999_999 == (last_day_number() * 86_400 + 86_399) * 1_000_000_000 + 999_999_999);
        lemma_seconds_in_range(instant as int);
    }
    let secs = secs128 as i64;
    let nanos = nanos128 as u32;
    let pattern = effective_format(settings.format.as_str());
    match &settings.timezone {
        DisplayTimezone::Utc => {
            match render_in_utc(secs, nanos, pattern) {
                Some(t) => t,
                None => match render_in_utc(secs, nanos, DEFAULT_DATETIME_FORMAT) {
                    Some(t) => t,
                    None => String::new(),
                },
            }
        },
        DisplayTimezone::Named(n) => {
            match render_in_zone(secs, nanos, n.as_str(), pattern) {
                Some(t) => t,
                None => match render_in_zone(secs, nanos, n.as_str(), DEFAULT_DATETIME_FORMAT) {
                    Some(t) => t,
                    None => String::new(),
                },
            }
        },
        DisplayTimezone::System => {
            match render_in_system_zone(secs, nanos, pattern) {
                Some(t) => t,
                None => match render_in_system_zone(secs, nanos, DEFAULT_DATETIME_FORMAT) {
                    Some(t) => t,
                    None => String::new(),
                },
            }
        },
    }
}

/// A representable instant splits into whole seconds within `chrono`'s range.
proof fn lemma_seconds_in_range(instant: int)
    requires
        representable(instant),
    ensures
        moment_in_range(whole_seconds(instant), sub_nanos(instant)),
        i64::MIN <= whole_seconds(instant) <= i64::MAX,
{
    let lo = first_day_number() * 86_400;
    let hi = last_day_number() * 86_400 + 86_399;
    assert(lo * 1_000_000_000 <= instant <= hi * 1_000_000_000 + 999_999_999) by (nonlinear_arith)
        requires
            first_day_number() * 86_400_000_000_000 <= instant <= last_day_number() * 86_400_000_000_000 + 86_399_999_999_999,
            lo == first_day_number() * 86_400,
            hi == last_day_number() * 86_400 + 86_399;
    vstd::arithmetic::div_mod::lemma_fundamental_div_mod(instant, 1_000_000_000);
    let q = instant / 1_000_000_000;
    let m = instant % 1_000_000_000;
    assert(lo <= q <= hi) by (nonlinear_arith)
        requires
            instant == 1_000_000_000 * q + m,
            0 <= m < 1_000_000_000,
            lo * 1_000_000_000 <= instant <= hi * 1_000_000_000 + 999_999_999;
    assert(-10_000_000_000_000 <= lo && hi <= 10_000_000_000_000) by {
        assert(first_day_number() == -96_465_292);
        assert(last_day_number() == 95_026_236);
    }
}


/// The last instant `chrono` holds: the end of December 31 of 262142.
pub open spec fn last_instant() -> int {
    last_day_number() * 86_400_000_000_000 + 86_399_999_999_999
}

/// How many days past today a keyword's horizon reaches: `days - 1` for
/// "within `days` days" (today alone for 0 or 1); the other keywords end
/// otherwise.
pub fn horizon_day_offset(k: DueKeyword) -> (r: Option<u64>)
    ensures
        r == match k {
            DueKeyword::Within { days } => Some(if days == 0 { 0u64 } else { (days - 1) as u64 }),
            _ => None::<u64>,
        },
{
    match k {
        DueKeyword::Within { days } => Some(if days == 0 { 0 } else { days - 1 }),
        _ => None,
    }
}

/// `minutes` after `now`, when the span is one `chrono::TimeDelta` holds and
/// the end is an instant `chrono` holds.
pub open spec fn minutes_after(now: int, minutes: int) -> Option<int> {
    if minutes * 60 <= i64::MAX / 1000 && representable(now + minutes * 60_000_000_000) {
        Some(now + minutes * 60_000_000_000)
    } else {
        None
    }
}

/// An instant of the spec as an `i128`.
pub open spec fn as_instant(o: Option<int>) -> Option<i128> {
    match o {
        Some(x) => Some(x as i128),
        None => None,
    }
}

/// Where "within `minutes` minutes" ends: that many minutes after `now`, or
/// `None` when the span or the end is past what `chrono` holds.
pub fn minutes_horizon(now: i128, minutes: u64) -> (r: Option<i128>)
    requires
        representable(now as int),
    ensures
        r == as_instant(minutes_after(now as int, minutes as int)),
{
    if minutes > 153_722_867_280_912 {
        return None;
    }
    let end = now + minutes as i128 * 60_000_000_000;
    let (lo, hi) = instant_bounds();
    if lo <= end && end <= hi {
        Some(end)
    } else {
        None
    }
}

/// The end of the day `days_ahead` days after `now`'s date in UTC, at
/// 23:59:59; the last instant `chrono` holds when that day is past its range.
pub open spec fn utc_day_end(now: int, days_ahead: int) -> int {
    let day = now / 86_400_000_000_000 + days_ahead;
    if day > last_day_number() {
        last_instant()
    } else {
        day * 86_400_000_000_000 + 86_399_000_000_000
    }
}

pub fn utc_end_of_day(now: i128, days_ahead: u64) -> (r: i128)
    requires
        representable(now as int),
    ensures
        r == utc_day_end(now as int, days_ahead as int),
{
    let (_, hi) = instant_bounds();
    let last = day_number_of(LocalDate { year: 262142, month: 12, day: 31 });
    let today = now.checked_div_euclid(86_400_000_000_000).unwrap();
    proof {
        assert(last_day_number() == 95_026_236);
        assert(first_day_number() == -96_465_292);
        vstd::arithmetic::div_mod::lemma_fundamental_div_mod(now as int, 86_400_000_000_000);
        assert(-96_465_292 <= today <= 95_026_236) by (nonlinear_arith)
            requires
                now == 86_400_000_000_000 * today + (now as int) % 86_400_000_000_000,
                0 <= (now as int) % 86_400_000_000_000 < 86_400_000_000_000,
                -96_465_292 * 86_400_000_000_000 <= now <= 95_026_236 * 86_400_000_000_000 + 86_399_999_999_999;
    }
    if days_ahead as i128 > last as i128 - today {
        return hi;
    }
    (today + days_ahead as i128) * 86_400_000_000_000 + 86_399_000_000_000
}

/// The date the moment falls on in the named zone.
pub uninterp spec fn zone_local_date(secs: int, nanos: int, zone: Seq<char>) -> Option<(i32, u32, u32)>;

/// The zone's offset from UTC at that moment, in seconds east.
pub uninterp spec fn zone_offset(secs: int, nanos: int, zone: Seq<char>) -> int;

/// What the wall-clock time names in the named zone: `None` in a gap, else the
/// earliest and the latest instant (in whole seconds) it names.
pub uninterp spec fn zone_wall_clock(zone: Seq<char>, year: int, month: int, day: int, hour: int, minute: int, second: int) -> Option<(int, int)>;

/// Calls `chrono::DateTime::from_timestamp`, moves the moment into the
/// `chrono_tz` zone `zone` and takes `date_naive`. The contract names the
/// result; `None` when the zone is unknown or the moment out of range.
#[verifier::external_body]
fn local_date_in_zone(secs: i64, nanos: u32, zone: &str) -> (r: Option<LocalDate>)
    ensures
        r == opt_date(zone_local_date(secs as int, nanos as int, zone@)),
{
    let zone: chrono_tz::Tz = match zone.parse() {
        Ok(z) => z,
        Err(_) => return None,
    };
    match chrono::DateTime::from_timestamp(secs, nanos) {
        Some(m) => {
            let d = m.with_timezone(&zone).date_naive();
            Some(LocalDate { year: chrono::Datelike::year(&d), month: chrono::Datelike::month(&d), day: chrono::Datelike::day(&d) })
        },
        None => None,
    }
}

/// Calls `chrono::DateTime::from_timestamp`, moves the moment into the
/// `chrono_tz` zone `zone` and reads `offset().fix().local_minus_utc()`. The
/// contract names the result; 0 when the zone is unknown or the moment out of
/// range.
#[verifier::external_body]
fn offset_in_zone(secs: i64, nanos: u32, zone: &str) -> (r: i32)
    ensures
        r == zone_offset(secs as int, nanos as int, zone@),
{
    let zone: chrono_tz::Tz = match zone.parse() {
        Ok(z) => z,
        Err(_) => return 0,
    };
    match chrono::DateTime::from_timestamp(secs, nanos) {
        Some(m) => chrono::Offset::fix(m.with_timezone(&zone).offset()).local_minus_utc(),
        None => 0,
    }
}

/// Calls `chrono::TimeZone::from_local_datetime` for the wall-clock time in
/// the `chrono_tz` zone `zone` and reads the UNIX timestamps it gives: the one
/// instant, or the earlier and the later of an ambiguous time, or `None` in a
/// gap, for an unknown zone or a time that does not exist. The contract names
/// the result.
#[verifier::external_body]
fn wall_clock_in_zone(zone: &str, date: LocalDate, hour: u32, minute: u32, second: u32) -> (r: Option<(i64, i64)>)
    ensures
        match r {
            Some((a, b)) => zone_wall_clock(zone@, date.year as int, date.month as int, date.day as int, hour as int, minute as int, second as int) == Some((a as int, b as int)),
            None => zone_wall_clock(zone@, date.year as int, date.month as int, date.day as int, hour as int, minute as int, second as int) is None,
        },
{
    let zone: chrono_tz::Tz = match zone.parse() {
        Ok(z) => z,
        Err(_) => return None,
    };
    let local = match chrono::NaiveDate::from_ymd_opt(date.year, date.month, date.day).and_then(|d| d.and_hms_opt(hour, minute, second)) {
        Some(l) => l,
        None => return None,
    };
    match chrono::TimeZone::from_local_datetime(&zone, &local) {
        chrono::LocalResult::Single(v) => Some((v.timestamp(), v.timestamp())),
        chrono::LocalResult::Ambiguous(a, b) => Some((a.timestamp(), b.timestamp())),
        chrono::LocalResult::None => None,
    }
}

/// The end of the day `days_ahead` days after `now`'s date in the named zone,
/// at 23:59:59 there: in a gap, 23:59:59 read at the offset `now` has; when
/// the time falls twice, the later instant; the last instant `chrono` holds
/// when the day is past its range.
pub open spec fn zone_day_end(now: int, days_ahead: int, zone: Seq<char>) -> int {
    let secs = whole_seconds(now);
    let nanos = sub_nanos(now);
    match opt_date(zone_local_date(secs, nanos, zone)) {
        Some(d) => if !valid_date(d) || day_number(d) + days_ahead > last_day_number() {
            last_instant()
        } else {
            let target = date_from(days_later(d.year, d.month, d.day, days_ahead as u64).unwrap());
            match zone_wall_clock(zone, target.year as int, target.month as int, target.day as int, 23, 59, 59) {
                Some((_, later)) => later * 1_000_000_000,
                None => (day_number(target) * 86_400 + 86_399 - zone_offset(secs, nanos, zone)) * 1_000_000_000,
            }
        },
        None => last_instant(),
    }
}

pub fn zone_end_of_day(now: i128, days_ahead: u64, zone: &str) -> (r: i128)
    requires
        representable(now as int),
    ensures
        r == zone_day_end(now as int, days_ahead as int, zone@),
{
    let (_, hi) = instant_bounds();
    let secs = now.checked_div_euclid(1_000_000_000).unwrap();
    let nanos = now.checked_rem_euclid(1_000_000_000).unwrap();
    proof {
        assert(first_day_number() * 86_400_000_000_000 == (first_day_number() * 86_400) * 1_000_000_000);
        lemma_seconds_in_range(now as int);
    }
    let secs = secs as i64;
    let nanos = nanos as u32;
    let d = match local_date_in_zone(secs, nanos, zone) {
        Some(d) => d,
        None => return hi,
    };
    if !date_exists(d.year, d.month, d.day) {
        return hi;
    }
    let target = match add_days(d, days_ahead) {
        Some(t) => t,
        None => return hi,
    };
    let ghost dn = day_number(target);
    proof {
        assert(first_day_number() == -96_465_292);
        assert(last_day_number() == 95_026_236);
        assert(day_number(target) == day_number(d) + days_ahead);
        reveal(days_later);
    }
    match wall_clock_in_zone(zone, target, 23, 59, 59) {
        Some((_, later)) => later as i128 * 1_000_000_000,
        None => {
            let offset = offset_in_zone(secs, nanos, zone);
            let day = day_number_of(target);
            (day as i128 * 86_400 + 86_399 - offset as i128) * 1_000_000_000
        },
    }
}

/// The end of the day `days_ahead` days after `now`'s date in the zone, at
/// 23:59:59 (see [`utc_day_end`] and [`zone_day_end`]); for the system zone,
/// which the machine decides, `system_day_end`.
pub fn end_of_day_after(now: i128, days_ahead: u64, timezone: &DisplayTimezone, system_day_end: i128) -> (r: i128)
    requires
        representable(now as int),
    ensures
        r == match timezone@ {
            ZoneView::Utc => utc_day_end(now as int, days_ahead as int) as i128,
            ZoneView::Named(n) => zone_day_end(now as int, days_ahead as int, n) as i128,
            ZoneView::System => system_day_end,
        },
{
    match timezone {
        DisplayTimezone::Utc => utc_end_of_day(now, days_ahead),
        DisplayTimezone::Named(n) => zone_end_of_day(now, days_ahead, n.as_str()),
        DisplayTimezone::System => system_day_end,
    }
}

/// Where a due keyword's horizon ends at `now`: `None` for overdue, the end
/// of the last day for "within days" (taken as `system_day_end` when the zone
/// is the system's, which the machine decides), and the minutes after `now`
/// for "within minutes".
pub fn horizon_end(k: DueKeyword, now: i128, timezone: &DisplayTimezone, system_day_end: i128) -> (r: Option<i128>)
    requires
        representable(now as int),
    ensures
        r == match k {
            DueKeyword::Overdue => None::<i128>,
            DueKeyword::Within { days } => {
                let ahead = if days == 0 { 0int } else { days - 1 };
                Some(match timezone@ {
                    ZoneView::Utc => utc_day_end(now as int, ahead) as i128,
                    ZoneView::Named(n) => zone_day_end(now as int, ahead, n) as i128,
                    ZoneView::System => system_day_end,
                })
            },
            DueKeyword::WithinMinutes { minutes } => as_instant(minutes_after(now as int, minutes as int)),
        },
{
    match k {
        DueKeyword::Overdue => None,
        DueKeyword::Within { days } => {
            let ahead = if days == 0 { 0 } else { days - 1 };
            Some(end_of_day_after(now, ahead, timezone, system_day_end))
        },
        DueKeyword::WithinMinutes { minutes } => minutes_horizon(now, minutes),
    }
}

} // verus!
