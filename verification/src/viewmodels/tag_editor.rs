//! Validation behind the tag manager and the detail pane's tag area.
//!
//! The UI sends plain text, and these functions decide what of it is stored,
//! so that every entry point agrees on what a usable tag name is.

use vstd::prelude::*;
use crate::adapters::color::{hex_color, parse_hex};
use crate::text::{chars_of, is_white_space, is_whitespace, trim, trimmed};
use crate::adapters::tag::{Tag, TagBookmark};

verus! {

/// What the tag editor stores for `raw`: the trimmed text, unless it is empty
/// or holds whitespace.
pub open spec fn tag_name_of(raw: Seq<char>) -> Option<Seq<char>> {
    let t = trimmed(raw);
    if t.len() > 0 && !(exists|i: int| 0 <= i < t.len() && is_white_space(#[trigger] t[i])) {
        Some(t)
    } else {
        None
    }
}

/// Trims a name and rejects it when it is empty or contains whitespace.
///
/// Whitespace is refused rather than replaced: a tag is searched for as
/// `#name`, and the search splits its input on whitespace, so a two-word tag
/// could never be typed back into the search box.
pub fn validated_name(raw: &str) -> (r: Option<String>)
    ensures
        crate::search::resolve::text_option(r) == tag_name_of(raw@),
{
    let t = trim(raw);
    let chars = chars_of(t.as_str());
    if chars.len() == 0 {
        return None;
    }
    let mut i: usize = 0;
    while i < chars.len()
        invariant
            i <= chars@.len(),
            chars@ == trimmed(raw@),
            t@ == trimmed(raw@),
            forall|k: int| 0 <= k < i ==> !is_white_space(#[trigger] chars@[k]),
        decreases chars@.len() - i,
    {
        if is_whitespace(chars[i]) {
            assert(is_white_space(chars@[i as int]));
            return None;
        }
        i = i + 1;
    }
    Some(t)
}

/// Normalises a colour coming from the editor: anything that is not a hex
/// colour becomes "no colour".
pub fn validated_color(raw: &str) -> (r: Option<String>)
    ensures
        crate::search::resolve::text_option(r) == (if hex_color(raw@) is Some {
            Some(trimmed(raw@))
        } else {
            None::<Seq<char>>
        }),
{
    match parse_hex(raw) {
        Some(_) => Some(trim(raw)),
        None => None,
    }
}

/// The fields of a tag a write changes, each `None` when it is left alone.
#[derive(Debug, Clone, Default, PartialEq, Eq)]
pub struct PartialTag {
    pub name: Option<String>,
    pub color: Option<Option<String>>,
    pub order_index: Option<Option<i32>>,
}

/// A new tag, ready to be created under the id `id` at the instant `now` in
/// the project the manager shows; the tag does not record its project.
pub fn new_tag(name: String, color: Option<String>, order_index: i32, user_id: &str, id: &str, now: i128) -> (r: Tag)
    ensures
        r.id@ == id@,
        r.name == name,
        r.color == color,
        r.order_index == Some(order_index),
        r.created_at == now && r.updated_at == now,
        !r.deleted,
        r.updated_by@ == user_id@,
{
    Tag {
        id: id.to_owned(),
        name,
        color,
        order_index: Some(order_index),
        created_at: now,
        updated_at: now,
        deleted: false,
        updated_by: user_id.to_owned(),
    }
}

/// The write that renames and recolours a tag. The colour is always
/// written, also when it was cleared.
pub fn tag_patch(name: String, color: Option<String>) -> (r: PartialTag)
    ensures
        r.name == Some(name),
        r.color == Some(color),
        r.order_index is None,
{
    PartialTag { name: Some(name), color: Some(color), order_index: None }
}

/// A user's new sidebar pin of `tag_id`, recording the project that owns the
/// tag, ready to be created under the id `id` at the instant `now`.
pub fn new_bookmark(user_id: &str, project_id: &str, tag_id: &str, order_index: i32, id: &str, now: i128) -> (r:
    TagBookmark)
    ensures
        r.id@ == id@,
        r.user_id@ == user_id@,
        r.project_id@ == project_id@,
        r.tag_id@ == tag_id@,
        r.order_index == order_index,
        r.created_at == now && r.updated_at == now,
{
    TagBookmark {
        id: id.to_owned(),
        user_id: user_id.to_owned(),
        project_id: project_id.to_owned(),
        tag_id: tag_id.to_owned(),
        order_index,
        created_at: now,
        updated_at: now,
    }
}

} // verus!
