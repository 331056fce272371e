//! Tags and pinned tags as rows of the tag manager and the sidebar.

use vstd::prelude::*;
use crate::adapters::color::{Rgb, hex_color, parse_hex};
use crate::search::sidebar::Highlight;

verus! {

/// A tag as storage keeps it. Instants are nanoseconds since the Unix epoch.
#[derive(Debug, Clone, PartialEq, Eq)]
pub struct Tag {
    pub id: String,
    pub name: String,
    pub color: Option<String>,
    pub order_index: Option<i32>,
    pub created_at: i128,
    pub updated_at: i128,
    pub deleted: bool,
    pub updated_by: String,
}

/// A user's pin of a tag in the sidebar.
#[derive(Debug, Clone, PartialEq, Eq)]
pub struct TagBookmark {
    pub id: String,
    pub user_id: String,
    pub project_id: String,
    pub tag_id: String,
    pub order_index: i32,
    pub created_at: i128,
    pub updated_at: i128,
}

/// A row of the tag manager and of the task's tag list.
#[derive(Debug, Clone, PartialEq, Eq)]
pub struct TagItem {
    pub id: String,
    pub project_id: String,
    pub name: String,
    /// The stored colour text, or empty when it is not a usable colour.
    pub color: String,
    /// The colour to paint with; all channels zero when there is none.
    pub color_brush: Rgb,
    pub has_color: bool,
    pub bookmarked: bool,
    pub assigned: bool,
}

/// A pinned tag in the sidebar.
#[derive(Debug, Clone, PartialEq, Eq)]
pub struct BookmarkedTagItem {
    pub id: String,
    pub project_id: String,
    pub name: String,
    pub color_brush: Rgb,
    pub has_color: bool,
    pub highlight: Highlight,
}

/// The colour a stored value gives, if it is `#rrggbb`.
pub open spec fn stored_color(color: Option<String>) -> Option<Rgb> {
    match color {
        Some(c) => hex_color(c@),
        None => None,
    }
}

pub open spec fn brush_of(c: Option<Rgb>) -> Rgb {
    match c {
        Some(x) => x,
        None => Rgb { red: 0, green: 0, blue: 0 },
    }
}

/// The colour a stored value gives, if it is `#rrggbb`.
pub(crate) fn parse_stored_color(color: &Option<String>) -> (r: Option<Rgb>)
    ensures
        r == stored_color(*color),
{
    match color {
        Some(c) => parse_hex(c.as_str()),
        None => None,
    }
}

/// The row of a tag listed under the project `project_id`. An unusable
/// colour counts as none rather than as black; a usable one is kept as text
/// too, so the editor can send the same value back.
pub fn to_tag_item(tag: &Tag, project_id: &str, bookmarked: bool, assigned: bool) -> (r: TagItem)
    ensures
        r.id@ == tag.id@,
        r.project_id@ == project_id@,
        r.name@ == tag.name@,
        r.color@ == match stored_color(tag.color) {
            Some(_) => tag.color.unwrap()@,
            None => Seq::<char>::empty(),
        },
        r.color_brush == brush_of(stored_color(tag.color)),
        r.has_color == stored_color(tag.color) is Some,
        r.bookmarked == bookmarked,
        r.assigned == assigned,
{
    let color = parse_stored_color(&tag.color);
    let text = match (color, &tag.color) {
        (Some(_), Some(c)) => c.clone(),
        _ => String::new(),
    };
    TagItem {
        id: tag.id.clone(),
        project_id: project_id.to_owned(),
        name: tag.name.clone(),
        color: text,
        color_brush: match color {
            Some(x) => x,
            None => Rgb { red: 0, green: 0, blue: 0 },
        },
        has_color: color.is_some(),
        bookmarked,
        assigned,
    }
}

/// The sidebar row of a pinned tag. It points at the project the pin names,
/// since selecting it has to move there; the colour text is not needed.
pub fn to_bookmarked_tag_item(tag: &Tag, bookmark: &TagBookmark) -> (r: BookmarkedTagItem)
    ensures
        r.id@ == tag.id@,
        r.project_id@ == bookmark.project_id@,
        r.name@ == tag.name@,
        r.color_brush == brush_of(stored_color(tag.color)),
        r.has_color == stored_color(tag.color) is Some,
        r.highlight == Highlight::Plain,
{
    let color = parse_stored_color(&tag.color);
    BookmarkedTagItem {
        id: tag.id.clone(),
        project_id: bookmark.project_id.clone(),
        name: tag.name.clone(),
        color_brush: match color {
            Some(x) => x,
            None => Rgb { red: 0, green: 0, blue: 0 },
        },
        has_color: color.is_some(),
        highlight: Highlight::Plain,
    }
}

} // verus!
