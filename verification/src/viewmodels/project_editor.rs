//! Validation behind the project and task-list editor.
//!
//! The editor sends plain text, and these functions decide what of it is
//! stored, so an empty name is rejected in one place rather than in each
//! callback.

use vstd::prelude::*;
use crate::adapters::color::{hex_color, parse_hex};
use crate::text::{trim, trimmed};

verus! {

/// What the editor stores for `raw`: the trimmed text, unless nothing is left.
pub open spec fn validated_name_of(raw: Seq<char>) -> Option<Seq<char>> {
    if trimmed(raw).len() > 0 {
        Some(trimmed(raw))
    } else {
        None
    }
}

/// The colour the editor stores for `raw`: its trimmed text when it is a hex colour.
pub open spec fn validated_color_of(raw: Seq<char>) -> Option<Seq<char>> {
    if hex_color(raw) is Some {
        Some(trimmed(raw))
    } else {
        None
    }
}

/// Trims a name and rejects it when nothing is left.
pub fn validated_name(raw: &str) -> (r: Option<String>)
    ensures
        crate::search::resolve::text_option(r) == validated_name_of(raw@),
{
    let t = trim(raw);
    if t.as_str().unicode_len() == 0 {
        None
    } else {
        Some(t)
    }
}

/// Normalises a colour coming from the editor.
///
/// Anything that is not a hex colour becomes "no colour": the value is chosen
/// from a palette, so a different one means the UI and the domain disagree and
/// storing it would only spread the confusion.
pub fn validated_color(raw: &str) -> (r: Option<String>)
    ensures
        crate::search::resolve::text_option(r) == validated_color_of(raw@),
{
    match parse_hex(raw) {
        Some(_) => Some(trim(raw)),
        None => None,
    }
}

/// A project as storage keeps it. Instants are nanoseconds since the Unix
/// epoch, UTC.
#[derive(Debug, Clone, PartialEq, Eq)]
pub struct Project {
    pub id: String,
    pub name: String,
    pub description: Option<String>,
    pub color: Option<String>,
    pub order_index: i32,
    pub is_archived: bool,
    pub owner_id: Option<String>,
    pub created_at: i128,
    pub updated_at: i128,
    pub deleted: bool,
    pub updated_by: String,
}

/// A task list as storage keeps it.
#[derive(Debug, Clone, PartialEq, Eq)]
pub struct TaskList {
    pub id: String,
    pub project_id: String,
    pub name: String,
    pub description: Option<String>,
    pub color: Option<String>,
    pub order_index: i32,
    pub is_archived: bool,
    pub created_at: i128,
    pub updated_at: i128,
    pub deleted: bool,
    pub updated_by: String,
}

/// The fields of a project a write changes, each `None` when it is left alone.
#[derive(Debug, Clone, Default, PartialEq, Eq)]
pub struct PartialProject {
    pub name: Option<String>,
    pub description: Option<Option<String>>,
    pub color: Option<Option<String>>,
    pub order_index: Option<i32>,
    pub is_archived: Option<bool>,
}

/// The fields of a task list a write changes.
#[derive(Debug, Clone, Default, PartialEq, Eq)]
pub struct PartialTaskList {
    pub name: Option<String>,
    pub description: Option<Option<String>>,
    pub color: Option<Option<String>>,
    pub order_index: Option<i32>,
    pub is_archived: Option<bool>,
}

/// A new project, owned by its author, ready to be created under the id
/// `id` at the instant `now`.
pub fn new_project(name: String, color: Option<String>, order_index: i32, user_id: &str, id: &str, now: i128) -> (r:
    Project)
    ensures
        r.id@ == id@,
        r.name == name,
        r.description is None,
        r.color == color,
        r.order_index == order_index,
        !r.is_archived,
        r.owner_id matches Some(o) && o@ == user_id@,
        r.created_at == now && r.updated_at == now,
        !r.deleted,
        r.updated_by@ == user_id@,
{
    Project {
        id: id.to_owned(),
        name,
        description: None,
        color,
        order_index,
        is_archived: false,
        owner_id: Some(user_id.to_owned()),
        created_at: now,
        updated_at: now,
        deleted: false,
        updated_by: user_id.to_owned(),
    }
}

/// A new task list of the project `project_id`, ready to be created under
/// the id `id` at the instant `now`.
pub fn new_task_list(project_id: &str, name: String, order_index: i32, user_id: &str, id: &str, now: i128) -> (r:
    TaskList)
    ensures
        r.id@ == id@,
        r.project_id@ == project_id@,
        r.name == name,
        r.description is None && r.color is None,
        r.order_index == order_index,
        !r.is_archived,
        r.created_at == now && r.updated_at == now,
        !r.deleted,
        r.updated_by@ == user_id@,
{
    TaskList {
        id: id.to_owned(),
        project_id: project_id.to_owned(),
        name,
        description: None,
        color: None,
        order_index,
        is_archived: false,
        created_at: now,
        updated_at: now,
        deleted: false,
        updated_by: user_id.to_owned(),
    }
}

/// The write that renames and recolours a project. The colour is always
/// written, also when it was cleared, so "no colour" is a change.
pub fn project_patch(name: String, color: Option<String>) -> (r: PartialProject)
    ensures
        r.name == Some(name),
        r.color == Some(color),
        r.description is None && r.order_index is None && r.is_archived is None,
{
    PartialProject { name: Some(name), description: None, color: Some(color), order_index: None, is_archived: None }
}

/// The write that archives or unarchives a project, and nothing else.
pub fn archive_patch(archived: bool) -> (r: PartialProject)
    ensures
        r.is_archived == Some(archived),
        r.name is None && r.description is None && r.color is None && r.order_index is None,
{
    PartialProject { name: None, description: None, color: None, order_index: None, is_archived: Some(archived) }
}

/// The write that renames a task list, and nothing else.
pub fn task_list_patch(name: String) -> (r: PartialTaskList)
    ensures
        r.name == Some(name),
        r.description is None && r.color is None && r.order_index is None && r.is_archived is None,
{
    PartialTaskList { name: Some(name), description: None, color: None, order_index: None, is_archived: None }
}

} // verus!
