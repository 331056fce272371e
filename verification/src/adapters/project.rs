//! Project values shown in the sidebar.

use vstd::prelude::*;
use crate::text::{chars_of, string_of_range, trim, trimmed};
use crate::adapters::color::Rgb;
use crate::adapters::tag::{stored_color, brush_of, parse_stored_color};
use crate::viewmodels::app::query::{ProjectInfo, ListInfo, TaskInfo, list_live, task_live};

verus! {

/// Number of leading characters shown when the sidebar is collapsed and the
/// project has no icon.
pub const SHORT_LABEL_LEN: usize = 2;

/// The label [`short_label`] builds.
pub open spec fn short_label_of(name: Seq<char>) -> Seq<char> {
    let t = trimmed(name);
    if t.len() == 0 {
        seq!['?']
    } else if t.len() <= SHORT_LABEL_LEN {
        t
    } else {
        t.take(SHORT_LABEL_LEN as int)
    }
}

/// Builds the fallback label shown for a project in the collapsed sidebar.
///
/// Uses characters rather than bytes so multi-byte names are not split.
pub fn short_label(name: &str) -> (r: String)
    ensures
        r@ == short_label_of(name@),
{
    let t = trim(name);
    let chars = chars_of(t.as_str());
    if chars.len() == 0 {
        let mut out = String::new();
        crate::text::push_char(&mut out, '?');
        assert(out@ =~= seq!['?']);
        return out;
    }
    let end = if chars.len() < SHORT_LABEL_LEN {
        chars.len()
    } else {
        SHORT_LABEL_LEN
    };
    let out = string_of_range(&chars, 0, end);
    assert(out@ =~= short_label_of(name@));
    out
}

/// A task list row of the sidebar.
#[derive(Debug, Clone, PartialEq, Eq)]
pub struct TaskListItem {
    pub id: String,
    pub project_id: String,
    pub name: String,
    /// The tasks of the list that are neither deleted nor archived.
    pub task_count: i32,
}

/// A project row of the sidebar, with its lists.
#[derive(Debug, Clone, PartialEq, Eq)]
pub struct ProjectItem {
    pub id: String,
    pub name: String,
    pub short_label: String,
    pub has_color: bool,
    /// The stored colour text, or empty when it is not a usable colour.
    pub color: String,
    /// The colour to paint with; all channels zero when there is none.
    pub color_brush: Rgb,
    pub is_archived: bool,
    pub task_lists: Vec<TaskListItem>,
    pub expanded: bool,
}

/// The number of live tasks among `ts`.
pub open spec fn live_task_count(ts: Seq<TaskInfo>) -> nat
    decreases ts.len(),
{
    if ts.len() == 0 {
        0
    } else {
        live_task_count(ts.drop_last()) + if task_live(ts.last()) { 1nat } else { 0nat }
    }
}

/// The sidebar rows of the lists that can take tasks: id, project id, name
/// and the number of live tasks.
pub open spec fn list_rows(ls: Seq<ListInfo>) -> Seq<(Seq<char>, Seq<char>, Seq<char>, int)>
    decreases ls.len(),
{
    if ls.len() == 0 {
        Seq::empty()
    } else if list_live(ls.last()) {
        list_rows(ls.drop_last()).push(
            (ls.last().id@, ls.last().project_id@, ls.last().name@, live_task_count(ls.last().tasks@) as int),
        )
    } else {
        list_rows(ls.drop_last())
    }
}

pub open spec fn list_item_view(i: TaskListItem) -> (Seq<char>, Seq<char>, Seq<char>, int) {
    (i.id@, i.project_id@, i.name@, i.task_count as int)
}

/// The sidebar row of a project: its lists that can take tasks, each with
/// the number of its live tasks, and its colour when the stored one is
/// usable. Counts are taken from the hierarchy already loaded.
pub fn to_project_item(project: &ProjectInfo, expanded: bool) -> (r: ProjectItem)
    requires
        forall|l: int| 0 <= l < project.lists@.len() ==> (#[trigger] project.lists@[l]).tasks@.len() <= i32::MAX,
    ensures
        r.id@ == project.id@,
        r.name@ == project.name@,
        r.short_label@ == short_label_of(project.name@),
        r.has_color == stored_color(project.color) is Some,
        r.color@ == match stored_color(project.color) {
            Some(_) => project.color.unwrap()@,
            None => Seq::<char>::empty(),
        },
        r.color_brush == brush_of(stored_color(project.color)),
        r.is_archived == project.is_archived,
        r.task_lists@.map_values(|i: TaskListItem| list_item_view(i)) == list_rows(project.lists@),
        r.expanded == expanded,
{
    let mut task_lists: Vec<TaskListItem> = Vec::new();
    let mut l: usize = 0;
    while l < project.lists.len()
        invariant
            l <= project.lists@.len(),
            forall|k: int| 0 <= k < project.lists@.len() ==> (#[trigger] project.lists@[k]).tasks@.len() <= i32::MAX,
            task_lists@.map_values(|i: TaskListItem| list_item_view(i)) == list_rows(project.lists@.take(l as int)),
        decreases project.lists@.len() - l,
    {
        proof {
            assert(project.lists@.take(l + 1).drop_last() =~= project.lists@.take(l as int));
        }
        let list = &project.lists[l];
        if !list.deleted && !list.is_archived {
            let mut count: i32 = 0;
            let mut t: usize = 0;
            while t < list.tasks.len()
                invariant
                    t <= list.tasks@.len(),
                    list.tasks@.len() <= i32::MAX,
                    count == live_task_count(list.tasks@.take(t as int)),
                    count <= t,
                decreases list.tasks@.len() - t,
            {
                proof {
                    assert(list.tasks@.take(t + 1).drop_last() =~= list.tasks@.take(t as int));
                }
                if !list.tasks[t].deleted && !list.tasks[t].is_archived {
                    count = count + 1;
                }
                t = t + 1;
            }
            proof {
                assert(list.tasks@.take(list.tasks@.len() as int) =~= list.tasks@);
            }
            let ghost prev = task_lists@;
            task_lists.push(TaskListItem {
                id: list.id.clone(),
                project_id: list.project_id.clone(),
                name: list.name.clone(),
                task_count: count,
            });
            assert(task_lists@.map_values(|i: TaskListItem| list_item_view(i)) =~= prev.map_values(
                |i: TaskListItem| list_item_view(i),
            ).push(list_item_view(task_lists@.last())));
        }
        l = l + 1;
    }
    proof {
        assert(project.lists@.take(project.lists@.len() as int) =~= project.lists@);
    }
    let color = parse_stored_color(&project.color);
    let text = match (color, &project.color) {
        (Some(_), Some(c)) => c.clone(),
        _ => String::new(),
    };
    ProjectItem {
        id: project.id.clone(),
        name: project.name.clone(),
        short_label: short_label(project.name.as_str()),
        has_color: color.is_some(),
        color: text,
        color_brush: match color {
            Some(x) => x,
            None => Rgb { red: 0, green: 0, blue: 0 },
        },
        is_archived: project.is_archived,
        task_lists,
        expanded,
    }
}

} // verus!
