//! Task values shown in the task list.

use vstd::prelude::*;
use crate::adapters::datetime::is_overdue;
use crate::viewmodels::app::SubTask;
use crate::viewmodels::runtime_store::{TaskRecord, TaskStatus};

verus! {

/// The priority levels the task list distinguishes.
#[derive(Debug, Clone, Copy, PartialEq, Eq, Structural, Hash)]
pub enum TaskPriority {
    Unset,
    Low,
    Medium,
    High,
}

/// The level a stored priority falls into.
pub open spec fn priority_level(priority: i32) -> TaskPriority {
    if priority <= 0 {
        TaskPriority::Unset
    } else if priority <= 2 {
        TaskPriority::Low
    } else if priority <= 5 {
        TaskPriority::Medium
    } else {
        TaskPriority::High
    }
}

/// Buckets the numeric domain priority into the levels the UI renders.
///
/// The domain stores an open-ended `i32`; the UI only distinguishes "needs
/// attention", "elevated" and "normal", so the mapping is deliberately coarse.
pub fn to_priority(priority: i32) -> (r: TaskPriority)
    ensures
        r == priority_level(priority),
{
    if priority <= 0 {
        TaskPriority::Unset
    } else if priority <= 2 {
        TaskPriority::Low
    } else if priority <= 5 {
        TaskPriority::Medium
    } else {
        TaskPriority::High
    }
}

/// A subtask row of the task list.
#[derive(Debug, Clone, PartialEq, Eq)]
pub struct SubTaskItem {
    pub id: String,
    pub task_id: String,
    pub title: String,
    pub status: TaskStatus,
    pub completed: bool,
    /// Whether the search query matches this subtask on its own.
    pub search_match: bool,
}

/// A task row of the task list.
#[derive(Debug, Clone, PartialEq, Eq)]
pub struct TaskItem {
    pub id: String,
    pub list_id: String,
    pub title: String,
    pub status: TaskStatus,
    pub priority: TaskPriority,
    pub completed: bool,
    pub due_label: String,
    pub has_due: bool,
    pub overdue: bool,
    pub notes: String,
    pub tag_labels: Vec<String>,
    pub subtask_count: i32,
    pub subtask_done_count: i32,
    pub subtasks: Vec<SubTaskItem>,
    pub expanded: bool,
    /// Listed only for its subtasks: shown receded.
    pub search_dimmed: bool,
    pub matched_subtask_count: i32,
}

/// A subtask row: id, task id, title, status and completion, as stored.
pub fn to_subtask_item(sub: &SubTask) -> (r: SubTaskItem)
    ensures
        r.id@ == sub.id@,
        r.task_id@ == sub.task_id@,
        r.title@ == sub.title@,
        r.status == sub.status,
        r.completed == sub.completed,
        !r.search_match,
{
    SubTaskItem {
        id: sub.id.clone(),
        task_id: sub.task_id.clone(),
        title: sub.title.clone(),
        status: sub.status,
        completed: sub.completed,
        search_match: false,
    }
}

/// How many of the subtasks are marked completed.
pub open spec fn done_count(subs: Seq<SubTask>) -> nat
    decreases subs.len(),
{
    if subs.len() == 0 {
        0
    } else {
        done_count(subs.drop_last()) + if subs.last().completed { 1nat } else { 0nat }
    }
}

pub open spec fn subtask_item_view(i: SubTaskItem) -> (Seq<char>, Seq<char>, Seq<char>, TaskStatus, bool, bool) {
    (i.id@, i.task_id@, i.title@, i.status, i.completed, i.search_match)
}

pub open spec fn subtask_row_view(s: SubTask) -> (Seq<char>, Seq<char>, Seq<char>, TaskStatus, bool, bool) {
    (s.id@, s.task_id@, s.title@, s.status, s.completed, false)
}

/// The row of a task and its subtasks. `due_label` is the due date as the
/// user's calendar and format show it, used when the task has one; `now`
/// decides whether it is overdue; `tag_labels` are its tags' names.
/// Whether the row is opened up comes from the interface, not the task.
pub fn to_task_item(
    task: &TaskRecord,
    subtasks: &Vec<SubTask>,
    expanded: bool,
    now: i128,
    due_label: &str,
    tag_labels: Vec<String>,
) -> (r: TaskItem)
    ensures
        r.id@ == task.id@,
        r.list_id@ == task.list_id@,
        r.title@ == task.title@,
        r.status == task.status,
        r.priority == priority_level(task.priority),
        r.completed == (task.status == TaskStatus::Completed),
        r.due_label@ == if task.plan_end_date is Some { due_label@ } else { Seq::<char>::empty() },
        r.has_due == task.plan_end_date is Some,
        r.overdue == match task.plan_end_date {
            Some(d) => task.status != TaskStatus::Completed && d < now,
            None => false,
        },
        r.notes@ == match task.description {
            Some(d) => d@,
            None => Seq::<char>::empty(),
        },
        r.tag_labels == tag_labels,
        r.subtask_count == subtasks@.len() as i32,
        r.subtask_done_count == done_count(subtasks@) as i32,
        r.subtasks@.map_values(|i: SubTaskItem| subtask_item_view(i)) == subtasks@.map_values(
            |s: SubTask| subtask_row_view(s),
        ),
        r.expanded == expanded,
        !r.search_dimmed,
        r.matched_subtask_count == 0,
{
    let completed = match task.status {
        TaskStatus::Completed => true,
        _ => false,
    };
    let mut items: Vec<SubTaskItem> = Vec::new();
    let mut done: usize = 0;
    let mut i: usize = 0;
    while i < subtasks.len()
        invariant
            i <= subtasks@.len(),
            done == done_count(subtasks@.take(i as int)),
            done <= i,
            items@.map_values(|i: SubTaskItem| subtask_item_view(i)) == subtasks@.take(i as int).map_values(
                |s: SubTask| subtask_row_view(s),
            ),
        decreases subtasks@.len() - i,
    {
        proof {
            assert(subtasks@.take(i + 1).drop_last() =~= subtasks@.take(i as int));
        }
        let ghost prev = items@;
        items.push(to_subtask_item(&subtasks[i]));
        assert(items@.map_values(|i: SubTaskItem| subtask_item_view(i)) =~= subtasks@.take(i + 1).map_values(
            |s: SubTask| subtask_row_view(s),
        )) by {
            assert(items@.map_values(|i: SubTaskItem| subtask_item_view(i)) =~= prev.map_values(
                |i: SubTaskItem| subtask_item_view(i),
            ).push(subtask_row_view(subtasks@[i as int])));
        }
        if subtasks[i].completed {
            done = done + 1;
        }
        i = i + 1;
    }
    assert(subtasks@.take(subtasks@.len() as int) =~= subtasks@);
    TaskItem {
        id: task.id.clone(),
        list_id: task.list_id.clone(),
        title: task.title.clone(),
        status: task.status,
        priority: to_priority(task.priority),
        completed,
        due_label: match task.plan_end_date {
            Some(_) => due_label.to_owned(),
            None => String::new(),
        },
        has_due: task.plan_end_date.is_some(),
        overdue: is_overdue(task.plan_end_date, completed, now),
        notes: match &task.description {
            Some(d) => d.clone(),
            None => String::new(),
        },
        tag_labels,
        subtask_count: subtasks.len() as i32,
        subtask_done_count: done as i32,
        subtasks: items,
        expanded,
        search_dimmed: false,
        matched_subtask_count: 0,
    }
}

} // verus!
