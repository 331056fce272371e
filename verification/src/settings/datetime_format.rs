//! The date-time formats offered in the settings: the built-in ones, then the
//! user's own.

use vstd::prelude::*;
use crate::settings::model::{format_view, formats_copy, DateTimeFormatKind, DateTimeFormatPreference};

verus! {

pub open spec fn format_of(
    id: Seq<char>,
    name: Seq<char>,
    value: Seq<char>,
    kind: DateTimeFormatKind,
    order: i32,
) -> (Seq<char>, Seq<char>, Seq<char>, DateTimeFormatKind, i32) {
    (id, name, value, kind, order)
}

/// The built-in formats, in the order they are offered.
pub open spec fn built_in_views() -> Seq<(Seq<char>, Seq<char>, Seq<char>, DateTimeFormatKind, i32)> {
    seq![
        format_of("-1"@, "default"@, ""@, DateTimeFormatKind::Default, 0),
        format_of("jp-0"@, "japanese"@, "%Y年%m月%d日 %H:%M:%S"@, DateTimeFormatKind::Preset, 10),
        format_of("en-0"@, "american"@, "%m/%d/%Y %H:%M:%S"@, DateTimeFormatKind::Preset, 20),
        format_of("iso-0"@, "iso"@, "%Y-%m-%dT%H:%M:%S%:z"@, DateTimeFormatKind::Preset, 30),
        format_of("-2"@, "custom"@, ""@, DateTimeFormatKind::Custom, 40),
    ]
}

pub open spec fn formats_view(v: Seq<DateTimeFormatPreference>) -> Seq<(Seq<char>, Seq<char>, Seq<char>, DateTimeFormatKind, i32)> {
    v.map_values(|x: DateTimeFormatPreference| format_view(x))
}

/// A format with the given fields.
pub fn format(id: &str, name: &str, value: &str, kind: DateTimeFormatKind, order: i32) -> (r: DateTimeFormatPreference)
    ensures
        format_view(r) == format_of(id@, name@, value@, kind, order),
{
    DateTimeFormatPreference {
        id: String::from_str(id),
        name: String::from_str(name),
        format: String::from_str(value),
        kind,
        order,
    }
}

/// The built-in formats: the default, three presets, and the custom slot.
pub fn built_in_formats() -> (r: Vec<DateTimeFormatPreference>)
    ensures
        formats_view(r@) == built_in_views(),
{
    let r = vec![
        format("-1", "default", "", DateTimeFormatKind::Default, 0),
        format("jp-0", "japanese", "%Y年%m月%d日 %H:%M:%S", DateTimeFormatKind::Preset, 10),
        format("en-0", "american", "%m/%d/%Y %H:%M:%S", DateTimeFormatKind::Preset, 20),
        format("iso-0", "iso", "%Y-%m-%dT%H:%M:%S%:z", DateTimeFormatKind::Preset, 30),
        format("-2", "custom", "", DateTimeFormatKind::Custom, 40),
    ];
    assert(formats_view(r@) =~= built_in_views());
    r
}

/// The built-in formats followed by the user's own.
pub fn all_formats(custom: &Vec<DateTimeFormatPreference>) -> (r: Vec<DateTimeFormatPreference>)
    ensures
        formats_view(r@) == built_in_views() + formats_view(custom@),
{
    let mut formats = built_in_formats();
    let mut extra = formats_copy(custom);
    let ghost a = formats_view(formats@);
    let ghost b = formats_view(extra@);
    formats.append(&mut extra);
    assert(formats_view(formats@) =~= a + b);
    formats
}

} // verus!
