//! Colour values exchanged with the UI.
//!
//! The domain stores a colour as a hex string, which the UI cannot render
//! directly. Parsing therefore happens here, and both the parsed colour and the
//! original text are handed on: the text so the editor can send the same value
//! back.

use vstd::prelude::*;
use crate::text::{chars_of, trim, trimmed};

verus! {

/// The colours a project can be tagged with.
///
/// A fixed palette rather than a free colour picker: these have to stay legible
/// against both the light and the dark surface, which an arbitrary colour does
/// not.
pub fn project_colors() -> (r: Vec<&'static str>)
    ensures
        r@.map_values(|c: &str| c@) == seq![
            "#4c6ef5"@,
            "#15aabf"@,
            "#40c057"@,
            "#fd7e14"@,
            "#fa5252"@,
            "#be4bdb"@,
            "#868e96"@,
        ],
{
    let r = vec!["#4c6ef5", "#15aabf", "#40c057", "#fd7e14", "#fa5252", "#be4bdb", "#868e96"];
    assert(r@.map_values(|c: &str| c@) =~= seq![
        "#4c6ef5"@,
        "#15aabf"@,
        "#40c057"@,
        "#fd7e14"@,
        "#fa5252"@,
        "#be4bdb"@,
        "#868e96"@,
    ]);
    r
}

/// A colour as its three 8-bit channels.
#[derive(Debug, Clone, Copy, PartialEq, Eq, Structural)]
pub struct Rgb {
    pub red: u8,
    pub green: u8,
    pub blue: u8,
}

/// The value of a hexadecimal digit, in either case.
pub open spec fn hex_value(c: char) -> Option<nat> {
    if '0' <= c <= '9' {
        Some((c as nat - '0' as nat) as nat)
    } else if 'a' <= c <= 'f' {
        Some((c as nat - 'a' as nat + 10) as nat)
    } else if 'A' <= c <= 'F' {
        Some((c as nat - 'A' as nat + 10) as nat)
    } else {
        None
    }
}

/// The channel two chars spell: exactly two hex digits, high digit first.
pub open spec fn channel_of(s: Seq<char>) -> Option<u8> {
    if s.len() == 2 {
        match (hex_value(s[0]), hex_value(s[1])) {
            (Some(h), Some(l)) => Some((h * 16 + l) as u8),
            _ => None,
        }
    } else {
        None
    }
}

/// The digits after the `#` of a trimmed colour, if it starts with one.
pub open spec fn hex_digits(value: Seq<char>) -> Option<Seq<char>> {
    let t = trimmed(value);
    if t.len() > 0 && t[0] == '#' {
        Some(t.drop_first())
    } else {
        None
    }
}

/// What [`parse_hex`] reads: `#` and six hex digits, ignoring surrounding
/// whitespace.
pub open spec fn hex_color(value: Seq<char>) -> Option<Rgb> {
    match hex_digits(value) {
        Some(d) => if d.len() == 6 {
            match (channel_of(d.subrange(0, 2)), channel_of(d.subrange(2, 4)), channel_of(d.subrange(4, 6))) {
                (Some(r), Some(g), Some(b)) => Some(Rgb { red: r, green: g, blue: b }),
                _ => None,
            }
        } else {
            None
        },
        None => None,
    }
}

fn hex_digit(c: char) -> (r: Option<u8>)
    ensures
        match hex_value(c) {
            Some(v) => r == Some(v as u8) && v < 16,
            None => r is None,
        },
{
    if '0' <= c && c <= '9' {
        Some(((c as u32) - ('0' as u32)) as u8)
    } else if 'a' <= c && c <= 'f' {
        Some(((c as u32) - ('a' as u32) + 10) as u8)
    } else if 'A' <= c && c <= 'F' {
        Some(((c as u32) - ('A' as u32) + 10) as u8)
    } else {
        None
    }
}

fn channel(a: char, b: char) -> (r: Option<u8>)
    ensures
        r == channel_of(seq![a, b]),
{
    match (hex_digit(a), hex_digit(b)) {
        (Some(h), Some(l)) => Some(h * 16 + l),
        _ => None,
    }
}

/// Parses `#rrggbb` into a colour, ignoring case and surrounding whitespace.
///
/// Returns `None` for anything else, including the shorthand `#rgb` form: the
/// palette only ever produces the long form, and a half-understood colour is
/// worse than none.
pub fn parse_hex(value: &str) -> (r: Option<Rgb>)
    ensures
        r == hex_color(value@),
{
    let t = trim(value);
    let chars = chars_of(t.as_str());
    if chars.len() != 7 || chars[0] != '#' {
        return None;
    }
    let ghost d = chars@.drop_first();
    let red = channel(chars[1], chars[2]);
    let green = channel(chars[3], chars[4]);
    let blue = channel(chars[5], chars[6]);
    proof {
        assert(d.subrange(0, 2) =~= seq![chars@[1], chars@[2]]);
        assert(d.subrange(2, 4) =~= seq![chars@[3], chars@[4]]);
        assert(d.subrange(4, 6) =~= seq![chars@[5], chars@[6]]);
    }
    match (red, green, blue) {
        (Some(r), Some(g), Some(b)) => Some(Rgb { red: r, green: g, blue: b }),
        _ => None,
    }
}

} // verus!
