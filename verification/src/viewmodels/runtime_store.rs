//! The runtime source of truth for the loaded project hierarchy.
//!
//! Task edits are applied at once and written to storage in the background.
//! Each task's edits are kept in order until every older edit has been
//! resolved, so a failed edit can be dropped and the newer ones replayed over
//! the last committed value.
//!
//! Ids are the canonical text of the stored UUIDs; instants are nanoseconds
//! since the Unix epoch, UTC.

use vstd::prelude::*;
use crate::search::lexer::strings_view;
use crate::search::resolve::{id_from, lemma_id_from};
use crate::text::same_text;
use crate::viewmodels::recurrence::model::{RecurrenceRule, RuleView, copy_rule};

verus! {

/// The state of a task.
#[derive(Debug, Clone, Copy, PartialEq, Eq, Structural)]
pub enum TaskStatus {
    NotStarted,
    InProgress,
    Waiting,
    Completed,
    Cancelled,
}

/// The stored fields of a task that an edit can change.
#[derive(Debug, PartialEq, Eq)]
pub struct TaskRecord {
    pub id: String,
    pub list_id: String,
    pub title: String,
    pub description: Option<String>,
    pub status: TaskStatus,
    pub priority: i32,
    pub plan_start_date: Option<i128>,
    pub plan_end_date: Option<i128>,
    pub do_start_date: Option<i128>,
    pub do_end_date: Option<i128>,
    pub is_range_date: Option<bool>,
    pub recurrence_rule: Option<RecurrenceRule>,
    pub reminders: Vec<i128>,
    pub order_index: i32,
    pub is_archived: bool,
    pub assigned_user_ids: Vec<String>,
    pub tag_ids: Vec<String>,
    pub created_at: i128,
    pub updated_at: i128,
    pub deleted: bool,
    pub updated_by: String,
}

/// An edit: the fields it sets, each `None` when it leaves that field alone.
#[derive(Debug, Default, PartialEq, Eq)]
pub struct TaskPatch {
    pub list_id: Option<String>,
    pub title: Option<String>,
    pub description: Option<Option<String>>,
    pub status: Option<TaskStatus>,
    pub priority: Option<i32>,
    pub plan_start_date: Option<Option<i128>>,
    pub plan_end_date: Option<Option<i128>>,
    pub do_start_date: Option<Option<i128>>,
    pub do_end_date: Option<Option<i128>>,
    pub is_range_date: Option<Option<bool>>,
    pub recurrence_rule: Option<Option<RecurrenceRule>>,
    pub reminders: Option<Vec<i128>>,
    pub order_index: Option<i32>,
    pub is_archived: Option<bool>,
    pub assigned_user_ids: Option<Vec<String>>,
    pub tag_ids: Option<Vec<String>>,
    pub created_at: Option<i128>,
    pub updated_at: Option<i128>,
    pub deleted: Option<bool>,
    pub updated_by: Option<String>,
}

pub open spec fn opt_str(o: Option<String>) -> Option<Seq<char>> {
    match o {
        Some(s) => Some(s@),
        None => None,
    }
}

pub struct RecordView {
    pub id: Seq<char>,
    pub list_id: Seq<char>,
    pub title: Seq<char>,
    pub description: Option<Seq<char>>,
    pub status: TaskStatus,
    pub priority: i32,
    pub plan_start_date: Option<i128>,
    pub plan_end_date: Option<i128>,
    pub do_start_date: Option<i128>,
    pub do_end_date: Option<i128>,
    pub is_range_date: Option<bool>,
    pub recurrence_rule: Option<RuleView>,
    pub reminders: Seq<i128>,
    pub order_index: i32,
    pub is_archived: bool,
    pub assigned_user_ids: Seq<Seq<char>>,
    pub tag_ids: Seq<Seq<char>>,
    pub created_at: i128,
    pub updated_at: i128,
    pub deleted: bool,
    pub updated_by: Seq<char>,
}

pub struct PatchView {
    pub list_id: Option<Seq<char>>,
    pub title: Option<Seq<char>>,
    pub description: Option<Option<Seq<char>>>,
    pub status: Option<TaskStatus>,
    pub priority: Option<i32>,
    pub plan_start_date: Option<Option<i128>>,
    pub plan_end_date: Option<Option<i128>>,
    pub do_start_date: Option<Option<i128>>,
    pub do_end_date: Option<Option<i128>>,
    pub is_range_date: Option<Option<bool>>,
    pub recurrence_rule: Option<Option<RuleView>>,
    pub reminders: Option<Seq<i128>>,
    pub order_index: Option<i32>,
    pub is_archived: Option<bool>,
    pub assigned_user_ids: Option<Seq<Seq<char>>>,
    pub tag_ids: Option<Seq<Seq<char>>>,
    pub created_at: Option<i128>,
    pub updated_at: Option<i128>,
    pub deleted: Option<bool>,
    pub updated_by: Option<Seq<char>>,
}

impl View for TaskRecord {
    type V = RecordView;

    open spec fn view(&self) -> RecordView {
        RecordView {
            id: self.id@,
            list_id: self.list_id@,
            title: self.title@,
            description: opt_str(self.description),
            status: self.status,
            priority: self.priority,
            plan_start_date: self.plan_start_date,
            plan_end_date: self.plan_end_date,
            do_start_date: self.do_start_date,
            do_end_date: self.do_end_date,
            is_range_date: self.is_range_date,
            recurrence_rule: rule_opt(self.recurrence_rule),
            reminders: self.reminders@,
            order_index: self.order_index,
            is_archived: self.is_archived,
            assigned_user_ids: strings_view(self.assigned_user_ids@),
            tag_ids: strings_view(self.tag_ids@),
            created_at: self.created_at,
            updated_at: self.updated_at,
            deleted: self.deleted,
            updated_by: self.updated_by@,
        }
    }
}

impl View for TaskPatch {
    type V = PatchView;

    open spec fn view(&self) -> PatchView {
        PatchView {
            list_id: opt_str(self.list_id),
            title: opt_str(self.title),
            description: match self.description {
                Some(d) => Some(opt_str(d)),
                None => None,
            },
            status: self.status,
            priority: self.priority,
            plan_start_date: self.plan_start_date,
            plan_end_date: self.plan_end_date,
            do_start_date: self.do_start_date,
            do_end_date: self.do_end_date,
            is_range_date: self.is_range_date,
            recurrence_rule: match self.recurrence_rule {
                Some(r) => Some(rule_opt(r)),
                None => None,
            },
            reminders: match self.reminders {
                Some(v) => Some(v@),
                None => None,
            },
            order_index: self.order_index,
            is_archived: self.is_archived,
            assigned_user_ids: match self.assigned_user_ids {
                Some(v) => Some(strings_view(v@)),
                None => None,
            },
            tag_ids: match self.tag_ids {
                Some(v) => Some(strings_view(v@)),
                None => None,
            },
            created_at: self.created_at,
            updated_at: self.updated_at,
            deleted: self.deleted,
            updated_by: opt_str(self.updated_by),
        }
    }
}

pub open spec fn rule_opt(o: Option<RecurrenceRule>) -> Option<RuleView> {
    match o {
        Some(r) => Some(r@),
        None => None,
    }
}

pub open spec fn or_keep<A>(new: Option<A>, old: A) -> A {
    match new {
        Some(v) => v,
        None => old,
    }
}

/// A task with an edit applied: every field the edit sets takes its value.
pub open spec fn patched(t: RecordView, p: PatchView) -> RecordView {
    RecordView {
        id: t.id,
        list_id: or_keep(p.list_id, t.list_id),
        title: or_keep(p.title, t.title),
        description: or_keep(p.description, t.description),
        status: or_keep(p.status, t.status),
        priority: or_keep(p.priority, t.priority),
        plan_start_date: or_keep(p.plan_start_date, t.plan_start_date),
        plan_end_date: or_keep(p.plan_end_date, t.plan_end_date),
        do_start_date: or_keep(p.do_start_date, t.do_start_date),
        do_end_date: or_keep(p.do_end_date, t.do_end_date),
        is_range_date: or_keep(p.is_range_date, t.is_range_date),
        recurrence_rule: or_keep(p.recurrence_rule, t.recurrence_rule),
        reminders: or_keep(p.reminders, t.reminders),
        order_index: or_keep(p.order_index, t.order_index),
        is_archived: or_keep(p.is_archived, t.is_archived),
        assigned_user_ids: or_keep(p.assigned_user_ids, t.assigned_user_ids),
        tag_ids: or_keep(p.tag_ids, t.tag_ids),
        created_at: or_keep(p.created_at, t.created_at),
        updated_at: or_keep(p.updated_at, t.updated_at),
        deleted: or_keep(p.deleted, t.deleted),
        updated_by: or_keep(p.updated_by, t.updated_by),
    }
}

/// An edit sets exactly the fields it names: each field the edit sets takes
/// the edit's value, each field it leaves alone keeps the task's, and the
/// task keeps its id.
pub proof fn law_an_edit_sets_exactly_its_fields(t: RecordView, p: PatchView)
    ensures
        patched(t, p).id == t.id,
        p.list_id matches Some(v) ==> patched(t, p).list_id == v,
        p.list_id is None ==> patched(t, p).list_id == t.list_id,
        p.title matches Some(v) ==> patched(t, p).title == v,
        p.title is None ==> patched(t, p).title == t.title,
        p.description matches Some(v) ==> patched(t, p).description == v,
        p.description is None ==> patched(t, p).description == t.description,
        p.status matches Some(v) ==> patched(t, p).status == v,
        p.status is None ==> patched(t, p).status == t.status,
        p.priority matches Some(v) ==> patched(t, p).priority == v,
        p.priority is None ==> patched(t, p).priority == t.priority,
        p.plan_start_date matches Some(v) ==> patched(t, p).plan_start_date == v,
        p.plan_start_date is None ==> patched(t, p).plan_start_date == t.plan_start_date,
        p.plan_end_date matches Some(v) ==> patched(t, p).plan_end_date == v,
        p.plan_end_date is None ==> patched(t, p).plan_end_date == t.plan_end_date,
        p.do_start_date matches Some(v) ==> patched(t, p).do_start_date == v,
        p.do_start_date is None ==> patched(t, p).do_start_date == t.do_start_date,
        p.do_end_date matches Some(v) ==> patched(t, p).do_end_date == v,
        p.do_end_date is None ==> patched(t, p).do_end_date == t.do_end_date,
        p.is_range_date matches Some(v) ==> patched(t, p).is_range_date == v,
        p.is_range_date is None ==> patched(t, p).is_range_date == t.is_range_date,
        p.recurrence_rule matches Some(v) ==> patched(t, p).recurrence_rule == v,
        p.recurrence_rule is None ==> patched(t, p).recurrence_rule == t.recurrence_rule,
        p.reminders matches Some(v) ==> patched(t, p).reminders == v,
        p.reminders is None ==> patched(t, p).reminders == t.reminders,
        p.order_index matches Some(v) ==> patched(t, p).order_index == v,
        p.order_index is None ==> patched(t, p).order_index == t.order_index,
        p.is_archived matches Some(v) ==> patched(t, p).is_archived == v,
        p.is_archived is None ==> patched(t, p).is_archived == t.is_archived,
        p.assigned_user_ids matches Some(v) ==> patched(t, p).assigned_user_ids == v,
        p.assigned_user_ids is None ==> patched(t, p).assigned_user_ids == t.assigned_user_ids,
        p.tag_ids matches Some(v) ==> patched(t, p).tag_ids == v,
        p.tag_ids is None ==> patched(t, p).tag_ids == t.tag_ids,
        p.created_at matches Some(v) ==> patched(t, p).created_at == v,
        p.created_at is None ==> patched(t, p).created_at == t.created_at,
        p.updated_at matches Some(v) ==> patched(t, p).updated_at == v,
        p.updated_at is None ==> patched(t, p).updated_at == t.updated_at,
        p.deleted matches Some(v) ==> patched(t, p).deleted == v,
        p.deleted is None ==> patched(t, p).deleted == t.deleted,
        p.updated_by matches Some(v) ==> patched(t, p).updated_by == v,
        p.updated_by is None ==> patched(t, p).updated_by == t.updated_by,
{
}

/// Applying the same edit twice is applying it once, and of two edits the
/// later one decides every field it sets.
pub proof fn law_edits_compose(t: RecordView, p: PatchView, q: PatchView)
    ensures
        patched(patched(t, p), p) == patched(t, p),
        q.list_id is Some ==> patched(patched(t, p), q).list_id == patched(t, q).list_id,
        q.title is Some ==> patched(patched(t, p), q).title == patched(t, q).title,
        q.description is Some ==> patched(patched(t, p), q).description == patched(t, q).description,
        q.status is Some ==> patched(patched(t, p), q).status == patched(t, q).status,
        q.priority is Some ==> patched(patched(t, p), q).priority == patched(t, q).priority,
        q.plan_start_date is Some ==> patched(patched(t, p), q).plan_start_date == patched(t, q).plan_start_date,
        q.plan_end_date is Some ==> patched(patched(t, p), q).plan_end_date == patched(t, q).plan_end_date,
        q.do_start_date is Some ==> patched(patched(t, p), q).do_start_date == patched(t, q).do_start_date,
        q.do_end_date is Some ==> patched(patched(t, p), q).do_end_date == patched(t, q).do_end_date,
        q.is_range_date is Some ==> patched(patched(t, p), q).is_range_date == patched(t, q).is_range_date,
        q.recurrence_rule is Some ==> patched(patched(t, p), q).recurrence_rule == patched(t, q).recurrence_rule,
        q.reminders is Some ==> patched(patched(t, p), q).reminders == patched(t, q).reminders,
        q.order_index is Some ==> patched(patched(t, p), q).order_index == patched(t, q).order_index,
        q.is_archived is Some ==> patched(patched(t, p), q).is_archived == patched(t, q).is_archived,
        q.assigned_user_ids is Some ==> patched(patched(t, p), q).assigned_user_ids == patched(t, q).assigned_user_ids,
        q.tag_ids is Some ==> patched(patched(t, p), q).tag_ids == patched(t, q).tag_ids,
        q.created_at is Some ==> patched(patched(t, p), q).created_at == patched(t, q).created_at,
        q.updated_at is Some ==> patched(patched(t, p), q).updated_at == patched(t, q).updated_at,
        q.deleted is Some ==> patched(patched(t, p), q).deleted == patched(t, q).deleted,
        q.updated_by is Some ==> patched(patched(t, p), q).updated_by == patched(t, q).updated_by,
{
}

fn copy_strings(v: &Vec<String>) -> (r: Vec<String>)
    ensures
        strings_view(r@) == strings_view(v@),
{
    let mut out: Vec<String> = Vec::new();
    let mut i: usize = 0;
    while i < v.len()
        invariant
            i <= v@.len(),
            out@.len() == i,
            forall|k: int| 0 <= k < i ==> (#[trigger] out@[k])@ == v@[k]@,
        decreases v@.len() - i,
    {
        out.push(v[i].clone());
        i = i + 1;
    }
    assert(strings_view(out@) =~= strings_view(v@));
    out
}

fn copy_rule_opt(o: &Option<RecurrenceRule>) -> (r: Option<RecurrenceRule>)
    ensures
        rule_opt(r) == rule_opt(*o),
{
    match o {
        Some(x) => Some(copy_rule(x)),
        None => None,
    }
}

fn copy_instants(v: &Vec<i128>) -> (r: Vec<i128>)
    ensures
        r@ == v@,
{
    let mut out: Vec<i128> = Vec::new();
    let mut i: usize = 0;
    while i < v.len()
        invariant
            i <= v@.len(),
            out@ == v@.take(i as int),
        decreases v@.len() - i,
    {
        out.push(v[i]);
        assert(out@ =~= v@.take(i + 1));
        i = i + 1;
    }
    assert(v@.take(v@.len() as int) =~= v@);
    out
}

fn copy_opt(o: &Option<String>) -> (r: Option<String>)
    ensures
        opt_str(r) == opt_str(*o),
{
    match o {
        Some(s) => Some(s.clone()),
        None => None,
    }
}

/// A copy of a task.
pub fn copy_record(t: &TaskRecord) -> (r: TaskRecord)
    ensures
        r@ == t@,
{
    TaskRecord {
        id: t.id.clone(),
        list_id: t.list_id.clone(),
        title: t.title.clone(),
        description: copy_opt(&t.description),
        status: t.status,
        priority: t.priority,
        plan_start_date: t.plan_start_date,
        plan_end_date: t.plan_end_date,
        do_start_date: t.do_start_date,
        do_end_date: t.do_end_date,
        is_range_date: t.is_range_date,
        recurrence_rule: copy_rule_opt(&t.recurrence_rule),
        reminders: copy_instants(&t.reminders),
        order_index: t.order_index,
        is_archived: t.is_archived,
        assigned_user_ids: copy_strings(&t.assigned_user_ids),
        tag_ids: copy_strings(&t.tag_ids),
        created_at: t.created_at,
        updated_at: t.updated_at,
        deleted: t.deleted,
        updated_by: t.updated_by.clone(),
    }
}

fn pick_string(new: &Option<String>, old: &String) -> (r: String)
    ensures
        r@ == or_keep(opt_str(*new), old@),
{
    match new {
        Some(v) => v.clone(),
        None => old.clone(),
    }
}

fn pick_opt_string(new: &Option<Option<String>>, old: &Option<String>) -> (r: Option<String>)
    ensures
        opt_str(r) == or_keep(
            match *new {
                Some(d) => Some(opt_str(d)),
                None => None,
            },
            opt_str(*old),
        ),
{
    match new {
        Some(v) => copy_opt(v),
        None => copy_opt(old),
    }
}

fn pick_strings(new: &Option<Vec<String>>, old: &Vec<String>) -> (r: Vec<String>)
    ensures
        strings_view(r@) == or_keep(
            match *new {
                Some(v) => Some(strings_view(v@)),
                None => None,
            },
            strings_view(old@),
        ),
{
    match new {
        Some(v) => copy_strings(v),
        None => copy_strings(old),
    }
}

fn pick_rule(new: &Option<Option<RecurrenceRule>>, old: &Option<RecurrenceRule>) -> (r: Option<RecurrenceRule>)
    ensures
        rule_opt(r) == or_keep(
            match *new {
                Some(x) => Some(rule_opt(x)),
                None => None,
            },
            rule_opt(*old),
        ),
{
    match new {
        Some(x) => copy_rule_opt(x),
        None => copy_rule_opt(old),
    }
}

fn pick_instants(new: &Option<Vec<i128>>, old: &Vec<i128>) -> (r: Vec<i128>)
    ensures
        r@ == or_keep(
            match *new {
                Some(v) => Some(v@),
                None => None,
            },
            old@,
        ),
{
    match new {
        Some(v) => copy_instants(v),
        None => copy_instants(old),
    }
}

fn pick<T: Copy>(new: Option<T>, old: T) -> (r: T)
    ensures
        r == or_keep(new, old),
{
    match new {
        Some(v) => v,
        None => old,
    }
}

/// Applies an edit to a task.
pub fn apply_task_patch(task: &mut TaskRecord, patch: &TaskPatch)
    ensures
        final(task)@ == patched(old(task)@, patch@),
{
    task.list_id = pick_string(&patch.list_id, &task.list_id);
    task.title = pick_string(&patch.title, &task.title);
    task.description = pick_opt_string(&patch.description, &task.description);
    task.status = pick(patch.status, task.status);
    task.priority = pick(patch.priority, task.priority);
    task.plan_start_date = pick(patch.plan_start_date, task.plan_start_date);
    task.plan_end_date = pick(patch.plan_end_date, task.plan_end_date);
    task.do_start_date = pick(patch.do_start_date, task.do_start_date);
    task.do_end_date = pick(patch.do_end_date, task.do_end_date);
    task.is_range_date = pick(patch.is_range_date, task.is_range_date);
    task.recurrence_rule = pick_rule(&patch.recurrence_rule, &task.recurrence_rule);
    task.reminders = pick_instants(&patch.reminders, &task.reminders);
    task.order_index = pick(patch.order_index, task.order_index);
    task.is_archived = pick(patch.is_archived, task.is_archived);
    task.assigned_user_ids = pick_strings(&patch.assigned_user_ids, &task.assigned_user_ids);
    task.tag_ids = pick_strings(&patch.tag_ids, &task.tag_ids);
    task.created_at = pick(patch.created_at, task.created_at);
    task.updated_at = pick(patch.updated_at, task.updated_at);
    task.deleted = pick(patch.deleted, task.deleted);
    task.updated_by = pick_string(&patch.updated_by, &task.updated_by);
}


#[derive(Debug, PartialEq, Eq)]
pub struct StoreList {
    pub id: String,
    pub tasks: Vec<TaskRecord>,
}

#[derive(Debug, PartialEq, Eq)]
pub struct StoreProject {
    pub id: String,
    pub task_lists: Vec<StoreList>,
}

pub struct ListRecords {
    pub id: Seq<char>,
    pub tasks: Seq<RecordView>,
}

pub struct ProjectRecords {
    pub id: Seq<char>,
    pub lists: Seq<ListRecords>,
}

impl View for StoreList {
    type V = ListRecords;

    open spec fn view(&self) -> ListRecords {
        ListRecords { id: self.id@, tasks: self.tasks@.map_values(|t: TaskRecord| t@) }
    }
}

impl View for StoreProject {
    type V = ProjectRecords;

    open spec fn view(&self) -> ProjectRecords {
        ProjectRecords { id: self.id@, lists: self.task_lists@.map_values(|l: StoreList| l@) }
    }
}

pub open spec fn trees_view(v: Seq<StoreProject>) -> Seq<ProjectRecords> {
    v.map_values(|p: StoreProject| p@)
}

/// The ids of the tasks, list by list, project by project.
pub open spec fn id_tree(ps: Seq<ProjectRecords>) -> Seq<Seq<Seq<Seq<char>>>> {
    ps.map_values(|p: ProjectRecords| p.lists.map_values(|l: ListRecords| l.tasks.map_values(|t: RecordView| t.id)))
}

/// The first list from `i` on that holds `k`.
pub open spec fn list_with_id(lists: Seq<Seq<Seq<char>>>, k: Seq<char>, i: int) -> Option<int>
    decreases lists.len() - i,
{
    if i < 0 || i >= lists.len() {
        None
    } else if id_from(lists[i], k, 0) is Some {
        Some(i)
    } else {
        list_with_id(lists, k, i + 1)
    }
}

/// The first project from `i` on with a list that holds `k`.
pub open spec fn project_with_id(ps: Seq<Seq<Seq<Seq<char>>>>, k: Seq<char>, i: int) -> Option<int>
    decreases ps.len() - i,
{
    if i < 0 || i >= ps.len() {
        None
    } else if list_with_id(ps[i], k, 0) is Some {
        Some(i)
    } else {
        project_with_id(ps, k, i + 1)
    }
}

/// Where the task `k` first appears: its project, list and place in the list.
pub open spec fn locate(ids: Seq<Seq<Seq<Seq<char>>>>, k: Seq<char>) -> Option<(int, int, int)> {
    match project_with_id(ids, k, 0) {
        Some(p) => match list_with_id(ids[p], k, 0) {
            Some(l) => match id_from(ids[p][l], k, 0) {
                Some(t) => Some((p, l, t)),
                None => None,
            },
            None => None,
        },
        None => None,
    }
}

/// The first task with id `k`.
pub open spec fn found(ps: Seq<ProjectRecords>, k: Seq<char>) -> Option<RecordView> {
    match locate(id_tree(ps), k) {
        Some((p, l, t)) => Some(ps[p].lists[l].tasks[t]),
        None => None,
    }
}

/// The tree with the task at `at` replaced by `r`.
pub open spec fn put(ps: Seq<ProjectRecords>, at: (int, int, int), r: RecordView) -> Seq<ProjectRecords> {
    let (p, l, t) = at;
    let list = ListRecords { tasks: ps[p].lists[l].tasks.update(t, r), ..ps[p].lists[l] };
    ps.update(p, ProjectRecords { lists: ps[p].lists.update(l, list), ..ps[p] })
}

proof fn lemma_list_with_id(lists: Seq<Seq<Seq<char>>>, k: Seq<char>, i: int)
    requires
        0 <= i,
    ensures
        list_with_id(lists, k, i) matches Some(l) ==> i <= l < lists.len() && id_from(lists[l], k, 0) is Some,
    decreases lists.len() - i,
{
    if i < lists.len() && id_from(lists[i], k, 0) is None {
        lemma_list_with_id(lists, k, i + 1);
    }
}

proof fn lemma_project_with_id(ps: Seq<Seq<Seq<Seq<char>>>>, k: Seq<char>, i: int)
    requires
        0 <= i,
    ensures
        project_with_id(ps, k, i) matches Some(p) ==> i <= p < ps.len() && list_with_id(ps[p], k, 0) is Some,
    decreases ps.len() - i,
{
    if i < ps.len() && list_with_id(ps[i], k, 0) is None {
        lemma_project_with_id(ps, k, i + 1);
    }
}

/// A located task is in range and has the id it was looked up by.
pub proof fn lemma_locate(ps: Seq<ProjectRecords>, k: Seq<char>)
    ensures
        locate(id_tree(ps), k) matches Some((p, l, t)) ==> {
            &&& 0 <= p < ps.len()
            &&& 0 <= l < ps[p].lists.len()
            &&& 0 <= t < ps[p].lists[l].tasks.len()
            &&& ps[p].lists[l].tasks[t].id == k
        },
{
    let ids = id_tree(ps);
    lemma_project_with_id(ids, k, 0);
    if let Some(p) = project_with_id(ids, k, 0) {
        lemma_list_with_id(ids[p], k, 0);
        if let Some(l) = list_with_id(ids[p], k, 0) {
            lemma_id_from(ids[p][l], k, 0);
            if let Some(t) = id_from(ids[p][l], k, 0) {
                assert(ids[p][l][t] == ps[p].lists[l].tasks[t].id);
            }
        }
    }
}

/// Replacing a task by one with the same id leaves every id where it was.
pub proof fn lemma_put_keeps_ids(ps: Seq<ProjectRecords>, at: (int, int, int), r: RecordView)
    requires
        0 <= at.0 < ps.len(),
        0 <= at.1 < ps[at.0].lists.len(),
        0 <= at.2 < ps[at.0].lists[at.1].tasks.len(),
        ps[at.0].lists[at.1].tasks[at.2].id == r.id,
    ensures
        id_tree(put(ps, at, r)) == id_tree(ps),
{
    let (p, l, t) = at;
    let a = id_tree(put(ps, at, r));
    let b = id_tree(ps);
    assert(a.len() == b.len());
    assert forall|i: int| 0 <= i < a.len() implies a[i] == b[i] by {
        if i == p {
            let la = put(ps, at, r)[p].lists;
            let lb = ps[p].lists;
            assert(a[i] =~= b[i]) by {
                assert forall|j: int| 0 <= j < la.len() implies la[j].tasks.map_values(|t: RecordView| t.id)
                    == lb[j].tasks.map_values(|t: RecordView| t.id) by {
                    if j == l {
                        assert(la[j].tasks.map_values(|t: RecordView| t.id) =~= lb[j].tasks.map_values(
                            |t: RecordView| t.id,
                        ));
                    }
                }
            }
        }
    }
    assert(a =~= b);
}

/// Replacing the task at one place leaves the first task with any other id as it was.
pub proof fn lemma_put_elsewhere(ps: Seq<ProjectRecords>, k: Seq<char>, r: RecordView, other: Seq<char>)
    requires
        locate(id_tree(ps), k) is Some,
        r.id == k,
    ensures
        other != k ==> found(put(ps, locate(id_tree(ps), k).unwrap(), r), other) == found(ps, other),
        found(put(ps, locate(id_tree(ps), k).unwrap(), r), k) == Some(r),
{
    let at = locate(id_tree(ps), k).unwrap();
    lemma_locate(ps, k);
    lemma_locate(ps, other);
    lemma_put_keeps_ids(ps, at, r);
}

/// Where the task `k` first appears in `trees`.
fn find_location(trees: &Vec<StoreProject>, k: &str) -> (r: Option<(usize, usize, usize)>)
    ensures
        match r {
            Some((p, l, t)) => locate(id_tree(trees_view(trees@)), k@) == Some((p as int, l as int, t as int)),
            None => locate(id_tree(trees_view(trees@)), k@) is None,
        },
{
    let ghost ps = trees_view(trees@);
    let ghost ids = id_tree(ps);
    let mut p: usize = 0;
    while p < trees.len()
        invariant
            ps == trees_view(trees@),
            ids == id_tree(ps),
            p <= trees@.len(),
            project_with_id(ids, k@, p as int) == project_with_id(ids, k@, 0),
        decreases trees@.len() - p,
    {
        let lists = &trees[p].task_lists;
        let mut l: usize = 0;
        assert(ids[p as int].len() == lists@.len());
        while l < lists.len()
            invariant
                ps == trees_view(trees@),
                ids == id_tree(ps),
                p < trees@.len(),
                lists == &trees@[p as int].task_lists,
                ids[p as int].len() == lists@.len(),
                l <= lists@.len(),
                project_with_id(ids, k@, p as int) == project_with_id(ids, k@, 0),
                list_with_id(ids[p as int], k@, l as int) == list_with_id(ids[p as int], k@, 0),
            decreases lists@.len() - l,
        {
            let tasks = &lists[l].tasks;
            let ghost tids = ids[p as int][l as int];
            assert(tids =~= tasks@.map_values(|t: TaskRecord| t@).map_values(|t: RecordView| t.id));
            let mut t: usize = 0;
            while t < tasks.len()
                invariant
                    ps == trees_view(trees@),
                    ids == id_tree(ps),
                    p < trees@.len(),
                    lists == &trees@[p as int].task_lists,
                    ids[p as int].len() == lists@.len(),
                    l < lists@.len(),
                    tasks == &lists@[l as int].tasks,
                    project_with_id(ids, k@, p as int) == project_with_id(ids, k@, 0),
                    list_with_id(ids[p as int], k@, l as int) == list_with_id(ids[p as int], k@, 0),
                    tids == ids[p as int][l as int],
                    tids.len() == tasks@.len(),
                    forall|j: int| 0 <= j < tasks@.len() ==> #[trigger] tids[j] == tasks@[j].id@,
                    t <= tasks@.len(),
                    id_from(tids, k@, t as int) == id_from(tids, k@, 0),
                decreases tasks@.len() - t,
            {
                if same_text(tasks[t].id.as_str(), k) {
                    proof {
                        assert(id_from(ids[p as int][l as int], k@, 0) == Some(t as int));
                        assert(list_with_id(ids[p as int], k@, l as int) == Some(l as int));
                        assert(project_with_id(ids, k@, p as int) == Some(p as int));
                    }
                    return Some((p, l, t));
                }
                t = t + 1;
            }
            l = l + 1;
        }
        p = p + 1;
    }
    None
}


/// Replaces the task at `at` by `r`.
fn put_record(trees: &mut Vec<StoreProject>, at: (usize, usize, usize), r: TaskRecord)
    requires
        at.0 < old(trees)@.len(),
        at.1 < old(trees)@[at.0 as int].task_lists@.len(),
        at.2 < old(trees)@[at.0 as int].task_lists@[at.1 as int].tasks@.len(),
    ensures
        trees_view(final(trees)@) == put(trees_view(old(trees)@), (at.0 as int, at.1 as int, at.2 as int), r@),
{
    let ghost ps = trees_view(trees@);
    let (p, l, t) = at;
    let mut project = trees.remove(p);
    let mut list = project.task_lists.remove(l);
    let ghost ts = list.tasks@.map_values(|x: TaskRecord| x@);
    list.tasks.remove(t);
    list.tasks.insert(t, r);
    assert(list.tasks@.map_values(|x: TaskRecord| x@) =~= ts.update(t as int, r@));
    let ghost ls = project.task_lists@.map_values(|x: StoreList| x@);
    project.task_lists.insert(l, list);
    assert(project.task_lists@.map_values(|x: StoreList| x@) =~= ps[p as int].lists.update(l as int, project.task_lists@[l as int]@));
    trees.insert(p, project);
    assert(trees_view(trees@) =~= put(ps, (p as int, l as int, t as int), r@));
}

/// How a written edit ended.
#[derive(Debug, Clone, Copy, PartialEq, Eq, Structural)]
pub enum Resolution {
    Committed,
    Failed,
}

#[derive(Debug)]
struct PendingMutation {
    id: u128,
    base_revision: u64,
    revision: u64,
    patch: TaskPatch,
    resolution: Option<Resolution>,
}

/// An edit waiting for its write, or for older edits' writes, to end.
pub struct PendingView {
    pub id: u128,
    pub base_revision: u64,
    pub revision: u64,
    pub patch: PatchView,
    pub resolution: Option<Resolution>,
}

spec fn pending_view(m: PendingMutation) -> PendingView {
    PendingView {
        id: m.id,
        base_revision: m.base_revision,
        revision: m.revision,
        patch: m.patch@,
        resolution: m.resolution,
    }
}

spec fn pendings_view(v: Seq<PendingMutation>) -> Seq<PendingView> {
    v.map_values(|m: PendingMutation| pending_view(m))
}

#[derive(Debug)]
struct MutationQueue {
    base: TaskRecord,
    pending: Vec<PendingMutation>,
}

/// A task's last committed value and the edits over it still in flight.
pub struct QueueView {
    pub base: RecordView,
    pub pending: Seq<PendingView>,
}

spec fn queue_view(q: MutationQueue) -> QueueView {
    QueueView { base: q.base@, pending: pendings_view(q.pending@) }
}

/// What a task shows: its committed value with every edit not known to have
/// failed applied over it, oldest first.
pub open spec fn replayed(base: RecordView, pending: Seq<PendingView>) -> RecordView
    decreases pending.len(),
{
    if pending.len() == 0 {
        base
    } else {
        let prev = replayed(base, pending.drop_last());
        if pending.last().resolution == Some(Resolution::Failed) {
            prev
        } else {
            patched(prev, pending.last().patch)
        }
    }
}

/// `base` with the edit `m` applied, unless it failed.
pub open spec fn step(base: RecordView, m: PendingView) -> RecordView {
    if m.resolution == Some(Resolution::Failed) {
        base
    } else {
        patched(base, m.patch)
    }
}

/// The queue after its resolved edits at the front are taken out: committed
/// ones are folded into the committed value, failed ones dropped.
pub open spec fn settled(base: RecordView, pending: Seq<PendingView>) -> (RecordView, Seq<PendingView>)
    decreases pending.len(),
{
    if pending.len() == 0 || pending[0].resolution is None {
        (base, pending)
    } else {
        settled(step(base, pending[0]), pending.drop_first())
    }
}

proof fn lemma_replay_front(base: RecordView, pending: Seq<PendingView>)
    requires
        pending.len() > 0,
    ensures
        replayed(base, pending) == replayed(step(base, pending[0]), pending.drop_first()),
    decreases pending.len(),
{
    if pending.len() > 1 {
        lemma_replay_front(base, pending.drop_last());
        assert(pending.drop_last().drop_first() =~= pending.drop_first().drop_last());
        assert(pending.drop_last()[0] == pending[0]);
        assert(pending.drop_first().last() == pending.last());
        assert(pending.drop_first().len() > 0);
        assert(replayed(step(base, pending[0]), pending.drop_first()) == step(
            replayed(step(base, pending[0]), pending.drop_first().drop_last()),
            pending.last(),
        ));
        assert(replayed(base, pending) == step(replayed(base, pending.drop_last()), pending.last()));
    } else {
        assert(pending.drop_last() =~= Seq::<PendingView>::empty());
        assert(pending.drop_first() =~= Seq::<PendingView>::empty());
    }
}

/// Taking resolved edits out of the front of a queue never changes what the
/// task shows.
pub proof fn law_settling_keeps_the_shown_value(base: RecordView, pending: Seq<PendingView>)
    ensures
        replayed(settled(base, pending).0, settled(base, pending).1) == replayed(base, pending),
    decreases pending.len(),
{
    if !(pending.len() == 0 || pending[0].resolution is None) {
        lemma_replay_front(base, pending);
        law_settling_keeps_the_shown_value(step(base, pending[0]), pending.drop_first());
    }
}

/// An edit never changes a task's id.
pub proof fn lemma_replayed_id(base: RecordView, pending: Seq<PendingView>)
    ensures
        replayed(base, pending).id == base.id,
    decreases pending.len(),
{
    if pending.len() > 0 {
        lemma_replayed_id(base, pending.drop_last());
    }
}

proof fn lemma_settled_id(base: RecordView, pending: Seq<PendingView>)
    ensures
        settled(base, pending).0.id == base.id,
    decreases pending.len(),
{
    if !(pending.len() == 0 || pending[0].resolution is None) {
        lemma_settled_id(step(base, pending[0]), pending.drop_first());
    }
}

fn replay(base: &TaskRecord, pending: &Vec<PendingMutation>) -> (r: TaskRecord)
    ensures
        r@ == replayed(base@, pendings_view(pending@)),
{
    let ghost all = pendings_view(pending@);
    let mut rebuilt = copy_record(base);
    let mut i: usize = 0;
    assert(all.take(0) =~= Seq::<PendingView>::empty());
    while i < pending.len()
        invariant
            all == pendings_view(pending@),
            i <= pending@.len(),
            rebuilt@ == replayed(base@, all.take(i as int)),
        decreases pending@.len() - i,
    {
        proof {
            assert(all.take(i + 1).drop_last() =~= all.take(i as int));
            assert(all.take(i + 1).last() == pending_view(pending@[i as int]));
        }
        if pending[i].resolution != Some(Resolution::Failed) {
            apply_task_patch(&mut rebuilt, &pending[i].patch);
        }
        i = i + 1;
    }
    assert(all.take(pending@.len() as int) =~= all);
    rebuilt
}


/// The first index from `i` on whose key is `k`.
pub open spec fn key_at<V>(s: Seq<(String, V)>, k: Seq<char>, i: int) -> Option<int>
    decreases s.len() - i,
{
    if i < 0 || i >= s.len() {
        None
    } else if s[i].0@ == k {
        Some(i)
    } else {
        key_at(s, k, i + 1)
    }
}

pub open spec fn keys_distinct<V>(s: Seq<(String, V)>) -> bool {
    forall|i: int, j: int| 0 <= i < j < s.len() ==> (#[trigger] s[i]).0@ != (#[trigger] s[j]).0@
}

proof fn lemma_key_at<V>(s: Seq<(String, V)>, k: Seq<char>, i: int)
    requires
        0 <= i,
    ensures
        key_at(s, k, i) matches Some(j) ==> i <= j < s.len() && s[j].0@ == k,
        key_at(s, k, i) is None ==> forall|j: int| i <= j < s.len() ==> s[j].0@ != k,
    decreases s.len() - i,
{
    if i < s.len() && s[i].0@ != k {
        lemma_key_at(s, k, i + 1);
    }
}

proof fn lemma_key_at_distinct<V>(s: Seq<(String, V)>, j: int)
    requires
        keys_distinct(s),
        0 <= j < s.len(),
    ensures
        key_at(s, s[j].0@, 0) == Some(j),
{
    lemma_key_at(s, s[j].0@, 0);
    if let Some(i) = key_at(s, s[j].0@, 0) {
        if i < j {
            assert(s[i].0@ != s[j].0@);
        } else if i > j {
            assert(s[j].0@ != s[i].0@);
        }
    }
}

fn key_position<V>(v: &Vec<(String, V)>, k: &str) -> (r: Option<usize>)
    ensures
        match r {
            Some(i) => key_at(v@, k@, 0) == Some(i as int) && i < v@.len(),
            None => key_at(v@, k@, 0) is None,
        },
{
    let mut i: usize = 0;
    while i < v.len()
        invariant
            i <= v@.len(),
            key_at(v@, k@, i as int) == key_at(v@, k@, 0),
        decreases v@.len() - i,
    {
        if same_text(v[i].0.as_str(), k) {
            return Some(i);
        }
        i = i + 1;
    }
    None
}

/// The tree after the task `k` is shown as the queue `q` says.
pub open spec fn rebuilt(ts: Seq<ProjectRecords>, k: Seq<char>, q: QueueView) -> Seq<ProjectRecords> {
    match locate(id_tree(ts), k) {
        Some(at) => put(ts, at, replayed(q.base, q.pending)),
        None => ts,
    }
}

/// Whether the task `k` of `ts` shows what its queue `q` says.
pub open spec fn queue_ok(ts: Seq<ProjectRecords>, k: Seq<char>, q: QueueView) -> bool {
    &&& q.base.id == k
    &&& q.pending.len() > 0
    &&& (found(ts, k) matches Some(t) ==> t == replayed(q.base, q.pending))
}

/// The revision after `r`, wrapping around.
pub open spec fn next_revision(r: u64) -> u64 {
    if r == u64::MAX {
        0
    } else {
        (r + 1) as u64
    }
}

/// A fresh id for an edit.
///
/// Calls `uuid::Uuid::new_v4`: the id is random, and nothing is stated of it.
#[verifier::external_body]
fn new_mutation_id() -> (r: u128) {
    uuid::Uuid::new_v4().as_u128()
}

spec fn queue_map(s: Seq<(String, MutationQueue)>) -> Map<Seq<char>, QueueView> {
    Map::new(
        |k: Seq<char>| key_at(s, k, 0) is Some,
        |k: Seq<char>| queue_view(s[key_at(s, k, 0).unwrap()].1),
    )
}

spec fn rev_map(s: Seq<(String, u64)>) -> Map<Seq<char>, u64> {
    Map::new(|k: Seq<char>| key_at(s, k, 0) is Some, |k: Seq<char>| s[key_at(s, k, 0).unwrap()].1)
}

proof fn lemma_key_at_same_keys<V, W>(s: Seq<(String, V)>, t: Seq<(String, W)>, k: Seq<char>)
    requires
        keys_distinct(s),
        s.len() == t.len(),
        forall|j: int| 0 <= j < s.len() ==> (#[trigger] s[j]).0@ == t[j].0@,
    ensures
        keys_distinct(t),
        key_at(t, k, 0) == key_at(s, k, 0),
{
    assert forall|i: int, j: int| 0 <= i < j < t.len() implies (#[trigger] t[i]).0@ != (#[trigger] t[j]).0@ by {
        assert(s[i].0@ != s[j].0@);
    }
    lemma_key_at(s, k, 0);
    lemma_key_at(t, k, 0);
    if let Some(j) = key_at(s, k, 0) {
        lemma_key_at_distinct(t, j);
    } else if let Some(j) = key_at(t, k, 0) {
        assert(s[j].0@ == k);
    }
}

proof fn lemma_key_at_push<V>(s: Seq<(String, V)>, x: (String, V), k: Seq<char>)
    requires
        keys_distinct(s),
        key_at(s, x.0@, 0) is None,
    ensures
        keys_distinct(s.push(x)),
        key_at(s.push(x), k, 0) == if k == x.0@ {
            Some(s.len() as int)
        } else {
            key_at(s, k, 0)
        },
{
    let t = s.push(x);
    lemma_key_at(s, x.0@, 0);
    assert forall|i: int, j: int| 0 <= i < j < t.len() implies (#[trigger] t[i]).0@ != (#[trigger] t[j]).0@ by {
        if j < s.len() {
            assert(s[i].0@ != s[j].0@);
        } else {
            assert(s[i].0@ != x.0@);
        }
    }
    lemma_key_at(s, k, 0);
    lemma_key_at(t, k, 0);
    if let Some(j) = key_at(s, k, 0) {
        assert(t[j] == s[j]);
        lemma_key_at_distinct(t, j);
    } else if k == x.0@ {
        lemma_key_at_distinct(t, s.len() as int);
    } else if let Some(j) = key_at(t, k, 0) {
        if j < s.len() {
            assert(t[j] == s[j]);
        }
    }
}

proof fn lemma_key_at_remove<V>(s: Seq<(String, V)>, i: int, k: Seq<char>)
    requires
        keys_distinct(s),
        0 <= i < s.len(),
    ensures
        keys_distinct(s.remove(i)),
        key_at(s.remove(i), k, 0) == if k == s[i].0@ {
            None
        } else {
            match key_at(s, k, 0) {
                Some(j) => Some(if j < i { j } else { j - 1 }),
                None => None,
            }
        },
{
    let t = s.remove(i);
    assert forall|a: int, b: int| 0 <= a < b < t.len() implies (#[trigger] t[a]).0@ != (#[trigger] t[b]).0@ by {
        let a2 = if a < i { a } else { a + 1 };
        let b2 = if b < i { b } else { b + 1 };
        assert(t[a] == s[a2]);
        assert(t[b] == s[b2]);
        assert(s[a2].0@ != s[b2].0@);
    }
    lemma_key_at(s, k, 0);
    lemma_key_at(t, k, 0);
    if let Some(j) = key_at(t, k, 0) {
        let j2 = if j < i { j } else { j + 1 };
        assert(t[j] == s[j2]);
        lemma_key_at_distinct(s, j2);
        if k == s[i].0@ {
            assert(j2 != i);
        }
    } else if let Some(j) = key_at(s, k, 0) {
        if j != i {
            let j2 = if j < i { j } else { j - 1 };
            assert(t[j2] == s[j]);
        }
    }
}

proof fn lemma_queue_map_update(s: Seq<(String, MutationQueue)>, i: int, x: (String, MutationQueue))
    requires
        keys_distinct(s),
        0 <= i < s.len(),
        x.0@ == s[i].0@,
    ensures
        keys_distinct(s.update(i, x)),
        queue_map(s.update(i, x)) == queue_map(s).insert(x.0@, queue_view(x.1)),
{
    let t = s.update(i, x);
    assert forall|k: Seq<char>| #[trigger] key_at(t, k, 0) == key_at(s, k, 0) by {
        lemma_key_at_same_keys(s, t, k);
    }
    lemma_key_at_same_keys(s, t, x.0@);
    lemma_key_at_distinct(s, i);
    assert forall|k: Seq<char>| k != x.0@ && key_at(s, k, 0) is Some implies #[trigger] t[key_at(s, k, 0).unwrap()] == s[key_at(s, k, 0).unwrap()] by {
        lemma_key_at(s, k, 0);
    }
    assert(queue_map(t) =~= queue_map(s).insert(x.0@, queue_view(x.1)));
}

proof fn lemma_queue_map_push(s: Seq<(String, MutationQueue)>, x: (String, MutationQueue))
    requires
        keys_distinct(s),
        key_at(s, x.0@, 0) is None,
    ensures
        keys_distinct(s.push(x)),
        queue_map(s.push(x)) == queue_map(s).insert(x.0@, queue_view(x.1)),
{
    let t = s.push(x);
    assert forall|k: Seq<char>| #[trigger] key_at(t, k, 0) == (if k == x.0@ {
        Some(s.len() as int)
    } else {
        key_at(s, k, 0)
    }) by {
        lemma_key_at_push(s, x, k);
    }
    lemma_key_at_push(s, x, x.0@);
    assert forall|k: Seq<char>| key_at(s, k, 0) is Some implies #[trigger] t[key_at(s, k, 0).unwrap()] == s[key_at(s, k, 0).unwrap()] by {
        lemma_key_at(s, k, 0);
    }
    assert(queue_map(t) =~= queue_map(s).insert(x.0@, queue_view(x.1)));
}

proof fn lemma_queue_map_remove(s: Seq<(String, MutationQueue)>, i: int)
    requires
        keys_distinct(s),
        0 <= i < s.len(),
    ensures
        keys_distinct(s.remove(i)),
        queue_map(s.remove(i)) == queue_map(s).remove(s[i].0@),
{
    let t = s.remove(i);
    assert forall|k: Seq<char>| #[trigger] key_at(t, k, 0) == (if k == s[i].0@ {
        None
    } else {
        match key_at(s, k, 0) {
            Some(j) => Some(if j < i { j } else { j - 1 }),
            None => None,
        }
    }) by {
        lemma_key_at_remove(s, i, k);
        lemma_key_at(s, k, 0);
        if let Some(j) = key_at(s, k, 0) {
            if j < i {
                assert(t[j] == s[j]);
            } else if j > i {
                assert(t[j - 1] == s[j]);
            }
        }
    }
    lemma_key_at_remove(s, i, s[i].0@);
    assert forall|k: Seq<char>| k != s[i].0@ && key_at(s, k, 0) is Some implies #[trigger] t[key_at(t, k, 0).unwrap()] == s[key_at(s, k, 0).unwrap()] by {
        lemma_key_at(s, k, 0);
        let j = key_at(s, k, 0).unwrap();
        lemma_key_at_distinct(s, i);
        assert(j != i);
    }
    assert(queue_map(t) =~= queue_map(s).remove(s[i].0@));
}

proof fn lemma_rev_map_update(s: Seq<(String, u64)>, i: int, x: (String, u64))
    requires
        keys_distinct(s),
        0 <= i < s.len(),
        x.0@ == s[i].0@,
    ensures
        keys_distinct(s.update(i, x)),
        rev_map(s.update(i, x)) == rev_map(s).insert(x.0@, x.1),
{
    let t = s.update(i, x);
    assert forall|k: Seq<char>| #[trigger] key_at(t, k, 0) == key_at(s, k, 0) by {
        lemma_key_at_same_keys(s, t, k);
    }
    lemma_key_at_same_keys(s, t, x.0@);
    lemma_key_at_distinct(s, i);
    assert forall|k: Seq<char>| k != x.0@ && key_at(s, k, 0) is Some implies #[trigger] t[key_at(s, k, 0).unwrap()] == s[key_at(s, k, 0).unwrap()] by {
        lemma_key_at(s, k, 0);
    }
    assert(rev_map(t) =~= rev_map(s).insert(x.0@, x.1));
}

proof fn lemma_rev_map_push(s: Seq<(String, u64)>, x: (String, u64))
    requires
        keys_distinct(s),
        key_at(s, x.0@, 0) is None,
    ensures
        keys_distinct(s.push(x)),
        rev_map(s.push(x)) == rev_map(s).insert(x.0@, x.1),
{
    let t = s.push(x);
    assert forall|k: Seq<char>| #[trigger] key_at(t, k, 0) == (if k == x.0@ {
        Some(s.len() as int)
    } else {
        key_at(s, k, 0)
    }) by {
        lemma_key_at_push(s, x, k);
    }
    lemma_key_at_push(s, x, x.0@);
    assert forall|k: Seq<char>| key_at(s, k, 0) is Some implies #[trigger] t[key_at(s, k, 0).unwrap()] == s[key_at(s, k, 0).unwrap()] by {
        lemma_key_at(s, k, 0);
    }
    assert(rev_map(t) =~= rev_map(s).insert(x.0@, x.1));
}

/// Showing one task as its queue says leaves every other id's first task as
/// it was, and every id where it was.
proof fn lemma_rebuilt(ts: Seq<ProjectRecords>, k: Seq<char>, q: QueueView, other: Seq<char>)
    requires
        q.base.id == k,
    ensures
        id_tree(rebuilt(ts, k, q)) == id_tree(ts),
        other != k ==> found(rebuilt(ts, k, q), other) == found(ts, other),
        found(rebuilt(ts, k, q), k) == if found(ts, k) is Some {
            Some(replayed(q.base, q.pending))
        } else {
            None
        },
{
    lemma_replayed_id(q.base, q.pending);
    lemma_locate(ts, k);
    if let Some(at) = locate(id_tree(ts), k) {
        let r = replayed(q.base, q.pending);
        lemma_put_keeps_ids(ts, at, r);
        lemma_put_elsewhere(ts, k, r, other);
    }
}

/// Shows the task `k` of `trees` as the queue `q` says.
fn show_queue(trees: &mut Vec<StoreProject>, k: &str, q: &MutationQueue)
    ensures
        trees_view(final(trees)@) == rebuilt(trees_view(old(trees)@), k@, queue_view(*q)),
{
    match find_location(trees, k) {
        Some(at) => {
            proof {
                lemma_locate(trees_view(trees@), k@);
            }
            let r = replay(&q.base, &q.pending);
            put_record(trees, at, r);
        },
        None => {},
    }
}

/// The revision a task's next edit starts from.
pub open spec fn revision_before(revs: Map<Seq<char>, u64>, k: Seq<char>) -> u64 {
    if revs.contains_key(k) {
        revs[k]
    } else {
        0
    }
}

/// The queue of `k` once the edit `m` joins it; a new queue over the shown
/// value `current` when the task had none.
pub open spec fn queued(qs: Map<Seq<char>, QueueView>, k: Seq<char>, current: RecordView, m: PendingView) -> QueueView {
    if qs.contains_key(k) {
        QueueView { base: qs[k].base, pending: qs[k].pending.push(m) }
    } else {
        QueueView { base: current, pending: seq![m] }
    }
}

/// The first edit from `i` on with the id `id`.
pub open spec fn edit_with_id(s: Seq<PendingView>, id: u128, i: int) -> Option<int>
    decreases s.len() - i,
{
    if i < 0 || i >= s.len() {
        None
    } else if s[i].id == id {
        Some(i)
    } else {
        edit_with_id(s, id, i + 1)
    }
}

proof fn lemma_edit_with_id(s: Seq<PendingView>, id: u128, i: int)
    requires
        0 <= i,
    ensures
        edit_with_id(s, id, i) matches Some(j) ==> i <= j < s.len() && s[j].id == id,
    decreases s.len() - i,
{
    if i < s.len() && s[i].id != id {
        lemma_edit_with_id(s, id, i + 1);
    }
}

/// The edits with the one at `j` marked as ended.
pub open spec fn marked(s: Seq<PendingView>, j: int, succeeded: bool) -> Seq<PendingView> {
    s.update(
        j,
        PendingView {
            resolution: Some(if succeeded { Resolution::Committed } else { Resolution::Failed }),
            ..s[j]
        },
    )
}

/// Marking an edit as written, unless it had failed, changes nothing shown.
proof fn lemma_replay_committed(base: RecordView, s: Seq<PendingView>, j: int)
    requires
        0 <= j < s.len(),
        s[j].resolution != Some(Resolution::Failed),
    ensures
        replayed(base, marked(s, j, true)) == replayed(base, s),
    decreases s.len(),
{
    let t = marked(s, j, true);
    if j < s.len() - 1 {
        assert(t.drop_last() =~= marked(s.drop_last(), j, true));
        lemma_replay_committed(base, s.drop_last(), j);
    } else {
        assert(t.drop_last() =~= s.drop_last());
    }
}

/// A failed edit is shown as if it had never been made.
proof fn lemma_replay_failed(base: RecordView, s: Seq<PendingView>, j: int)
    requires
        0 <= j < s.len(),
    ensures
        replayed(base, marked(s, j, false)) == replayed(base, s.remove(j)),
    decreases s.len(),
{
    let t = marked(s, j, false);
    if j < s.len() - 1 {
        assert(t.drop_last() =~= marked(s.drop_last(), j, false));
        assert(s.remove(j).drop_last() =~= s.drop_last().remove(j));
        assert(s.remove(j).last() == s.last());
        lemma_replay_failed(base, s.drop_last(), j);
    } else {
        assert(t.drop_last() =~= s.drop_last());
        assert(s.remove(j) =~= s.drop_last());
    }
}

/// Putting back the task that is already there changes nothing.
proof fn lemma_put_same(ps: Seq<ProjectRecords>, at: (int, int, int))
    requires
        0 <= at.0 < ps.len(),
        0 <= at.1 < ps[at.0].lists.len(),
        0 <= at.2 < ps[at.0].lists[at.1].tasks.len(),
    ensures
        put(ps, at, ps[at.0].lists[at.1].tasks[at.2]) == ps,
{
    let (p, l, t) = at;
    let r = ps[p].lists[l].tasks[t];
    assert(ps[p].lists[l].tasks.update(t, r) =~= ps[p].lists[l].tasks);
    assert(ps[p].lists.update(l, ps[p].lists[l]) =~= ps[p].lists);
    assert(put(ps, at, r) =~= ps);
}

/// A task as shown after a reload: the first task with an id that has a
/// queue in `qs` shows that queue; every other task is shown as loaded.
pub open spec fn shown_task(
    ids: Seq<Seq<Seq<Seq<char>>>>,
    qs: Map<Seq<char>, QueueView>,
    at: (int, int, int),
    r: RecordView,
) -> RecordView {
    if qs.contains_key(r.id) && locate(ids, r.id) == Some(at) {
        replayed(qs[r.id].base, qs[r.id].pending)
    } else {
        r
    }
}

/// The loaded tree `ts` with the queues `qs` shown over it.
pub open spec fn shown(ts: Seq<ProjectRecords>, qs: Map<Seq<char>, QueueView>) -> Seq<ProjectRecords> {
    ts.map(
        |p: int, pr: ProjectRecords|
            ProjectRecords {
                id: pr.id,
                lists: pr.lists.map(
                    |l: int, lr: ListRecords|
                        ListRecords {
                            id: lr.id,
                            tasks: lr.tasks.map(|t: int, r: RecordView| shown_task(id_tree(ts), qs, (p, l, t), r)),
                        },
                ),
            },
    )
}

/// The queues after a reload of `ts`: each task found there becomes its
/// queue's committed value; the edits in flight stay.
pub open spec fn reloaded(qs: Map<Seq<char>, QueueView>, ts: Seq<ProjectRecords>) -> Map<Seq<char>, QueueView> {
    Map::new(
        |k: Seq<char>| qs.contains_key(k),
        |k: Seq<char>|
            QueueView {
                base: match found(ts, k) {
                    Some(t) => t,
                    None => qs[k].base,
                },
                pending: qs[k].pending,
            },
    )
}

/// Every queue is over a value of its own task.
pub open spec fn bases_match(qs: Map<Seq<char>, QueueView>) -> bool {
    forall|k: Seq<char>| #[trigger] qs.contains_key(k) ==> qs[k].base.id == k
}

proof fn lemma_trees_ext(a: Seq<ProjectRecords>, b: Seq<ProjectRecords>)
    requires
        a.len() == b.len(),
        forall|p: int| 0 <= p < a.len() ==> (#[trigger] a[p]).id == b[p].id && a[p].lists.len() == b[p].lists.len(),
        forall|p: int, l: int|
            0 <= p < a.len() && 0 <= l < a[p].lists.len() ==> (#[trigger] a[p].lists[l]).id == b[p].lists[l].id
                && a[p].lists[l].tasks.len() == b[p].lists[l].tasks.len(),
        forall|p: int, l: int, t: int|
            0 <= p < a.len() && 0 <= l < a[p].lists.len() && 0 <= t < a[p].lists[l].tasks.len()
                ==> #[trigger] a[p].lists[l].tasks[t] == b[p].lists[l].tasks[t],
    ensures
        a == b,
{
    assert forall|p: int| 0 <= p < a.len() implies a[p] == b[p] by {
        assert forall|l: int| 0 <= l < a[p].lists.len() implies a[p].lists[l] == b[p].lists[l] by {
            assert(a[p].lists[l].tasks =~= b[p].lists[l].tasks);
        }
        assert(a[p].lists =~= b[p].lists);
    }
    assert(a =~= b);
}

/// Showing queues over a tree keeps every id where it was.
proof fn lemma_shown_ids(ts: Seq<ProjectRecords>, qs: Map<Seq<char>, QueueView>)
    requires
        bases_match(qs),
    ensures
        id_tree(shown(ts, qs)) == id_tree(ts),
{
    let a = id_tree(shown(ts, qs));
    let b = id_tree(ts);
    assert forall|p: int| 0 <= p < a.len() implies a[p] == b[p] by {
        assert forall|l: int| 0 <= l < a[p].len() implies a[p][l] == b[p][l] by {
            assert forall|t: int| 0 <= t < a[p][l].len() implies a[p][l][t] == b[p][l][t] by {
                let r = ts[p].lists[l].tasks[t];
                if qs.contains_key(r.id) {
                    lemma_replayed_id(qs[r.id].base, qs[r.id].pending);
                }
            }
            assert(a[p][l] =~= b[p][l]);
        }
        assert(a[p] =~= b[p]);
    }
    assert(a =~= b);
}

/// After a reload, the first task with a queued id shows its queue.
proof fn lemma_found_shown(ts: Seq<ProjectRecords>, qs: Map<Seq<char>, QueueView>, k: Seq<char>)
    requires
        bases_match(qs),
    ensures
        found(shown(ts, qs), k) == if qs.contains_key(k) && found(ts, k) is Some {
            Some(replayed(qs[k].base, qs[k].pending))
        } else {
            found(ts, k)
        },
{
    lemma_shown_ids(ts, qs);
    lemma_locate(ts, k);
}

/// Showing one more queue over a reloaded tree is rebuilding its task.
proof fn lemma_shown_step(ts: Seq<ProjectRecords>, qs: Map<Seq<char>, QueueView>, k: Seq<char>, q: QueueView)
    requires
        bases_match(qs),
        !qs.contains_key(k),
        q.base.id == k,
    ensures
        shown(ts, qs.insert(k, q)) == rebuilt(shown(ts, qs), k, q),
{
    let ids = id_tree(ts);
    let q2 = qs.insert(k, q);
    let a = shown(ts, q2);
    let base = shown(ts, qs);
    let b = rebuilt(base, k, q);
    lemma_shown_ids(ts, qs);
    lemma_locate(ts, k);
    lemma_locate(base, k);
    assert forall|p: int, l: int, t: int|
        0 <= p < a.len() && 0 <= l < a[p].lists.len() && 0 <= t < a[p].lists[l].tasks.len()
            implies #[trigger] a[p].lists[l].tasks[t] == b[p].lists[l].tasks[t] by {
        let r = ts[p].lists[l].tasks[t];
        if r.id == k {
            if let Some(at) = locate(ids, k) {
                if at != (p, l, t) {
                    assert(b[p].lists[l].tasks[t] == base[p].lists[l].tasks[t]);
                }
            }
        }
    }
    lemma_trees_ext(a, b);
}

/// The loaded project hierarchy, with every task's edits in flight.
#[derive(Debug)]
pub struct RuntimeStore {
    trees: Vec<StoreProject>,
    revisions: Vec<(String, u64)>,
    queues: Vec<(String, MutationQueue)>,
}

impl RuntimeStore {
    /// The tasks as shown.
    pub closed spec fn tasks(self) -> Seq<ProjectRecords> {
        trees_view(self.trees@)
    }

    /// Each task with edits in flight, and its queue.
    pub closed spec fn queues(self) -> Map<Seq<char>, QueueView> {
        queue_map(self.queues@)
    }

    /// The latest revision given out for each task that was ever edited.
    pub closed spec fn revisions(self) -> Map<Seq<char>, u64> {
        rev_map(self.revisions@)
    }

    /// Every task with edits in flight shows its committed value with the
    /// edits not known to have failed replayed over it.
    pub closed spec fn wf(self) -> bool {
        &&& keys_distinct(self.queues@)
        &&& keys_distinct(self.revisions@)
        &&& forall|i: int| 0 <= i < self.queues@.len() ==> #[trigger] queue_ok(
            trees_view(self.trees@),
            self.queues@[i].0@,
            queue_view(self.queues@[i].1),
        )
    }

    /// Every task with edits in flight shows its last committed value with
    /// each of its edits not known to have failed applied over it, oldest
    /// first.
    pub proof fn law_queued_task_shows_its_edits(self, k: Seq<char>)
        requires
            self.wf(),
            self.queues().contains_key(k),
        ensures
            found(self.tasks(), k) matches Some(t) ==> t == replayed(self.queues()[k].base, self.queues()[k].pending),
    {
        lemma_key_at(self.queues@, k, 0);
        let j = key_at(self.queues@, k, 0).unwrap();
        assert(queue_ok(trees_view(self.trees@), self.queues@[j].0@, queue_view(self.queues@[j].1)));
    }

    pub fn new(trees: Vec<StoreProject>) -> (r: Self)
        ensures
            r.wf(),
            r.tasks() == trees_view(trees@),
            r.queues() == Map::<Seq<char>, QueueView>::empty(),
            r.revisions() == Map::<Seq<char>, u64>::empty(),
    {
        let r = RuntimeStore { trees, revisions: Vec::new(), queues: Vec::new() };
        assert(r.queues() =~= Map::<Seq<char>, QueueView>::empty());
        assert(r.revisions() =~= Map::<Seq<char>, u64>::empty());
        r
    }

    /// The project hierarchy as shown.
    pub fn trees(&self) -> (r: &Vec<StoreProject>)
        ensures
            trees_view(r@) == self.tasks(),
    {
        &self.trees
    }

    /// The first task with this id.
    pub fn find_task(&self, task_id: &str) -> (r: Option<&TaskRecord>)
        ensures
            match found(self.tasks(), task_id@) {
                Some(t) => r matches Some(x) && x@ == t,
                None => r is None,
            },
    {
        match find_location(&self.trees, task_id) {
            Some((p, l, t)) => {
                proof {
                    lemma_locate(self.tasks(), task_id@);
                    assert(self.tasks()[p as int].lists[l as int].tasks[t as int] == self.trees@[p as int].task_lists@[l as int].tasks@[t as int]@);
                }
                Some(&self.trees[p].task_lists[l].tasks[t])
            },
            None => None,
        }
    }

    /// Starts an edit of the task `task_id`: it is shown at once, and kept
    /// until the write and every older write of that task have ended.
    /// Returns the edit's id, or `None` when no task has that id.
    pub fn begin_task_mutation(&mut self, task_id: &str, patch: TaskPatch) -> (r: Option<u128>)
        requires
            old(self).wf(),
        ensures
            final(self).wf(),
            match found(old(self).tasks(), task_id@) {
                None => {
                    &&& r is None
                    &&& final(self).tasks() == old(self).tasks()
                    &&& final(self).queues() == old(self).queues()
                    &&& final(self).revisions() == old(self).revisions()
                },
                Some(current) => r matches Some(id) && {
                    let b = revision_before(old(self).revisions(), task_id@);
                    let m = PendingView {
                        id,
                        base_revision: b,
                        revision: next_revision(b),
                        patch: patch@,
                        resolution: None,
                    };
                    let q = queued(old(self).queues(), task_id@, current, m);
                    &&& final(self).revisions() == old(self).revisions().insert(task_id@, next_revision(b))
                    &&& final(self).queues() == old(self).queues().insert(task_id@, q)
                    &&& final(self).tasks() == rebuilt(old(self).tasks(), task_id@, q)
                    &&& found(final(self).tasks(), task_id@) == Some(patched(current, patch@))
                },
            },
    {
        let ghost k = task_id@;
        let ghost old_self = *self;
        let current = match self.find_task(task_id) {
            Some(t) => copy_record(t),
            None => return None,
        };
        proof {
            lemma_locate(self.tasks(), k);
        }
        let ri = key_position(&self.revisions, task_id);
        let base_revision: u64 = match ri {
            Some(i) => self.revisions[i].1,
            None => 0,
        };
        let revision: u64 = if base_revision == u64::MAX { 0 } else { base_revision + 1 };
        match ri {
            Some(i) => {
                let ghost before = self.revisions@;
                let (key, _) = self.revisions.remove(i);
                self.revisions.insert(i, (key, revision));
                proof {
                    assert(self.revisions@ =~= before.update(i as int, (before[i as int].0, revision)));
                    lemma_key_at(before, k, 0);
                    lemma_rev_map_update(before, i as int, (before[i as int].0, revision));
                }
            },
            None => {
                let ghost before = self.revisions@;
                self.revisions.push((task_id.to_owned(), revision));
                proof {
                    lemma_rev_map_push(before, self.revisions@.last());
                    assert(before.push(self.revisions@.last()) =~= self.revisions@);
                }
            },
        }
        let id = new_mutation_id();
        let m = PendingMutation { id, base_revision, revision, patch, resolution: None };
        let ghost mv = pending_view(m);
        let qi: usize = match key_position(&self.queues, task_id) {
            Some(i) => {
                let ghost before = self.queues@;
                let (key, mut q) = self.queues.remove(i);
                let ghost pv = pendings_view(q.pending@);
                q.pending.push(m);
                assert(pendings_view(q.pending@) =~= pv.push(mv));
                self.queues.insert(i, (key, q));
                proof {
                    assert(self.queues@ =~= before.update(i as int, self.queues@[i as int]));
                    lemma_key_at(before, k, 0);
                    lemma_queue_map_update(before, i as int, self.queues@[i as int]);
                }
                i
            },
            None => {
                let ghost before = self.queues@;
                let mut pending: Vec<PendingMutation> = Vec::new();
                pending.push(m);
                assert(pendings_view(pending@) =~= seq![mv]);
                self.queues.push((task_id.to_owned(), MutationQueue { base: current, pending }));
                proof {
                    lemma_queue_map_push(before, self.queues@.last());
                    assert(before.push(self.queues@.last()) =~= self.queues@);
                }
                self.queues.len() - 1
            },
        };
        let ghost q = queue_view(self.queues@[qi as int].1);
        assert(q == queued(old_self.queues(), k, current@, mv));
        let ghost before_trees = self.tasks();
        show_queue(&mut self.trees, task_id, &self.queues[qi].1);
        proof {
            let cur = current@;
            assert(found(before_trees, k) == Some(cur));
            assert(q.pending.last() == mv);
            if old_self.queues().contains_key(k) {
                let j = key_at(old_self.queues@, k, 0).unwrap();
                lemma_key_at(old_self.queues@, k, 0);
                assert(queue_ok(before_trees, k, queue_view(old_self.queues@[j].1)));
                assert(old_self.queues()[k] == queue_view(old_self.queues@[j].1));
                assert(q.pending.drop_last() =~= old_self.queues()[k].pending);
                assert(cur == replayed(q.base, q.pending.drop_last()));
            } else {
                assert(q.pending.drop_last() =~= Seq::<PendingView>::empty());
            }
            assert(replayed(q.base, q.pending) == patched(cur, patch@));
            lemma_rebuilt(before_trees, k, q, k);
            assert forall|j: int| 0 <= j < self.queues@.len() implies #[trigger] queue_ok(
                trees_view(self.trees@),
                self.queues@[j].0@,
                queue_view(self.queues@[j].1),
            ) by {
                if j == qi {
                } else {
                    let kj = self.queues@[j].0@;
                    assert(self.queues@[j] == old_self.queues@[j]);
                    assert(queue_ok(before_trees, kj, queue_view(old_self.queues@[j].1)));
                    assert(self.queues@[qi as int].0@ == k);
                    assert(kj != k);
                    lemma_rebuilt(before_trees, k, q, kj);
                }
            }
        }
        Some(id)
    }

    /// Replaces the loaded hierarchy by `trees`, as read again from storage.
    /// Each task with edits in flight takes its reloaded value as its
    /// committed value, and shows its edits replayed over it.
    #[verifier::spinoff_prover]
    pub fn replace_trees(&mut self, trees: Vec<StoreProject>)
        requires
            old(self).wf(),
        ensures
            final(self).wf(),
            final(self).revisions() == old(self).revisions(),
            final(self).queues() == reloaded(old(self).queues(), trees_view(trees@)),
            final(self).tasks() == shown(trees_view(trees@), final(self).queues()),
    {
        let ghost ts = trees_view(trees@);
        let ghost old_self = *self;
        let ghost old_trees = self.tasks();
        let ghost qs0 = self.queues@;
        self.trees = trees;
        let mut i: usize = 0;
        while i < self.queues.len()
            invariant
                trees_view(self.trees@) == ts,
                self.revisions == old_self.revisions,
                self.queues@.len() == qs0.len(),
                i <= qs0.len(),
                forall|j: int| 0 <= j < qs0.len() ==> (#[trigger] self.queues@[j]).0 == qs0[j].0,
                forall|j: int|
                    0 <= j < i ==> queue_view((#[trigger] self.queues@[j]).1) == (QueueView {
                        base: match found(ts, qs0[j].0@) {
                            Some(t) => t,
                            None => queue_view(qs0[j].1).base,
                        },
                        pending: queue_view(qs0[j].1).pending,
                    }),
                forall|j: int| i <= j < qs0.len() ==> (#[trigger] self.queues@[j]) == qs0[j],
            decreases qs0.len() - i,
        {
            let loaded = match self.find_task(self.queues[i].0.as_str()) {
                Some(t) => Some(copy_record(t)),
                None => None,
            };
            match loaded {
                Some(base) => {
                    let ghost before = self.queues@;
                    let (key, mut q) = self.queues.remove(i);
                    q.base = base;
                    self.queues.insert(i, (key, q));
                    assert(self.queues@ =~= before.update(i as int, self.queues@[i as int]));
                },
                None => {},
            }
            i = i + 1;
        }
        let ghost qs1 = self.queues@;
        proof {
            assert forall|j: int| 0 <= j < qs1.len() implies (#[trigger] qs1[j]).1.base@.id == qs1[j].0@ by {
                assert(queue_ok(old_trees, qs0[j].0@, queue_view(qs0[j].1)));
                lemma_locate(ts, qs0[j].0@);
            }
            assert forall|k: Seq<char>| #[trigger] key_at(qs1, k, 0) == key_at(qs0, k, 0) by {
                lemma_key_at_same_keys(qs0, qs1, k);
            }
            lemma_key_at_same_keys(qs0, qs1, seq![]);
            let rq = reloaded(old_self.queues(), ts);
            assert forall|k: Seq<char>| #[trigger] rq.contains_key(k) implies queue_map(qs1)[k] == rq[k] by {
                lemma_key_at(qs0, k, 0);
                let j = key_at(qs0, k, 0).unwrap();
                assert(self.queues@[j] == qs1[j]);
            }
            assert forall|k: Seq<char>| #[trigger] queue_map(qs1).contains_key(k) == rq.contains_key(k) by {
                assert(key_at(qs1, k, 0) == key_at(qs0, k, 0));
            }
            assert(queue_map(qs1) =~= rq);
            let e = qs1.take(0);
            assert forall|k: Seq<char>| !(#[trigger] queue_map(e).contains_key(k)) by {
                assert(key_at(e, k, 0) is None);
            }
            lemma_trees_ext(trees_view(self.trees@), shown(ts, queue_map(e)));
        }
        let mut i: usize = 0;
        while i < self.queues.len()
            invariant
                self.queues@ == qs1,
                self.revisions == old_self.revisions,
                keys_distinct(qs1),
                forall|j: int| 0 <= j < qs1.len() ==> (#[trigger] qs1[j]).1.base@.id == qs1[j].0@,
                i <= qs1.len(),
                trees_view(self.trees@) == shown(ts, queue_map(qs1.take(i as int))),
            decreases qs1.len() - i,
        {
            let ghost pre = qs1.take(i as int);
            proof {
                assert forall|a: int, b: int| 0 <= a < b < pre.len() implies (#[trigger] pre[a]).0@ != (#[trigger] pre[b]).0@ by {
                    assert(pre[a] == qs1[a] && pre[b] == qs1[b]);
                }
                lemma_key_at(pre, qs1[i as int].0@, 0);
                if let Some(j) = key_at(pre, qs1[i as int].0@, 0) {
                    assert(pre[j] == qs1[j]);
                }
                assert(qs1.take(i + 1) =~= pre.push(qs1[i as int]));
                lemma_queue_map_push(pre, qs1[i as int]);
                assert forall|k: Seq<char>| #[trigger] queue_map(pre).contains_key(k) implies queue_map(pre)[k].base.id == k by {
                    lemma_key_at(pre, k, 0);
                    assert(pre[key_at(pre, k, 0).unwrap()] == qs1[key_at(pre, k, 0).unwrap()]);
                }
                lemma_shown_step(ts, queue_map(pre), qs1[i as int].0@, queue_view(qs1[i as int].1));
            }
            show_queue(&mut self.trees, self.queues[i].0.as_str(), &self.queues[i].1);
            i = i + 1;
        }
        proof {
            assert(qs1.take(qs1.len() as int) =~= qs1);
            let qm = queue_map(qs1);
            assert forall|k: Seq<char>| #[trigger] qm.contains_key(k) implies qm[k].base.id == k by {
                lemma_key_at(qs1, k, 0);
            }
            assert forall|j: int| 0 <= j < self.queues@.len() implies #[trigger] queue_ok(
                trees_view(self.trees@),
                self.queues@[j].0@,
                queue_view(self.queues@[j].1),
            ) by {
                let k = qs1[j].0@;
                lemma_key_at_distinct(qs1, j);
                lemma_found_shown(ts, qm, k);
                assert(queue_ok(old_trees, qs0[j].0@, queue_view(qs0[j].1)));
            }
        }
    }

    /// Records how the write of the edit `mutation_id` of the task `task_id`
    /// ended. Edits at the front of the task's queue that have all ended are
    /// taken out: written ones become the committed value, failed ones are
    /// dropped. Returns `false`, changing nothing, when no such edit is
    /// waiting.
    pub fn resolve_task_mutation(&mut self, task_id: &str, mutation_id: u128, succeeded: bool) -> (r: bool)
        requires
            old(self).wf(),
        ensures
            final(self).wf(),
            final(self).revisions() == old(self).revisions(),
            r == (old(self).queues().contains_key(task_id@) && edit_with_id(
                old(self).queues()[task_id@].pending,
                mutation_id,
                0,
            ) is Some),
            !r ==> final(self).tasks() == old(self).tasks() && final(self).queues() == old(self).queues(),
            r ==> {
                let q = old(self).queues()[task_id@];
                let j = edit_with_id(q.pending, mutation_id, 0).unwrap();
                let s = settled(q.base, marked(q.pending, j, succeeded));
                let nq = QueueView { base: s.0, pending: s.1 };
                &&& final(self).tasks() == rebuilt(old(self).tasks(), task_id@, nq)
                &&& final(self).queues() == if s.1.len() == 0 {
                    old(self).queues().remove(task_id@)
                } else {
                    old(self).queues().insert(task_id@, nq)
                }
                &&& succeeded && q.pending[j].resolution != Some(Resolution::Failed) ==> final(self).tasks()
                    == old(self).tasks()
                &&& !succeeded ==> found(final(self).tasks(), task_id@) == match found(
                    old(self).tasks(),
                    task_id@,
                ) {
                    Some(_) => Some(replayed(q.base, q.pending.remove(j))),
                    None => None,
                }
            },
    {
        let ghost k = task_id@;
        let ghost old_self = *self;
        let qi = match key_position(&self.queues, task_id) {
            Some(i) => i,
            None => return false,
        };
        proof {
            lemma_key_at(self.queues@, k, 0);
        }
        let ghost before = self.queues@;
        let ghost q0 = queue_view(before[qi as int].1);
        assert(old_self.queues()[k] == q0);
        let (key, mut q) = self.queues.remove(qi);
        let mut j: usize = 0;
        while j < q.pending.len()
            invariant
                j <= q.pending@.len(),
                q0 == queue_view(q),
                edit_with_id(q0.pending, mutation_id, j as int) == edit_with_id(q0.pending, mutation_id, 0),
            ensures
                j < q.pending@.len() ==> q.pending@[j as int].id == mutation_id,
            decreases q.pending@.len() - j,
        {
            if q.pending[j].id == mutation_id {
                break;
            }
            j = j + 1;
        }
        if j == q.pending.len() {
            self.queues.insert(qi, (key, q));
            assert(self.queues@ =~= before);
            return false;
        }
        assert(edit_with_id(q0.pending, mutation_id, j as int) == Some(j as int));
        let mut m = q.pending.remove(j);
        m.resolution = Some(if succeeded { Resolution::Committed } else { Resolution::Failed });
        q.pending.insert(j, m);
        let ghost mk = marked(q0.pending, j as int, succeeded);
        assert(pendings_view(q.pending@) =~= mk);
        let ghost target = settled(q0.base, mk);
        while q.pending.len() > 0 && q.pending[0].resolution.is_some()
            invariant
                settled(q.base@, pendings_view(q.pending@)) == target,
            decreases q.pending@.len(),
        {
            let ghost pv = pendings_view(q.pending@);
            let ghost b0 = q.base@;
            let m = q.pending.remove(0);
            assert(pendings_view(q.pending@) =~= pv.drop_first());
            assert(pv[0] == pending_view(m));
            assert(settled(b0, pv) == settled(step(b0, pv[0]), pv.drop_first()));
            assert(pv[0].resolution is Some);
            match m.resolution {
                Some(Resolution::Committed) => apply_task_patch(&mut q.base, &m.patch),
                _ => {},
            }
            assert(q.base@ == step(b0, pv[0]));
        }
        let ghost nq = queue_view(q);
        assert(nq.base == target.0 && nq.pending == target.1);
        let ghost before_trees = self.tasks();
        show_queue(&mut self.trees, task_id, &q);
        let ghost mid = self.queues@;
        proof {
            lemma_key_at_distinct(before, qi as int);
            lemma_queue_map_remove(before, qi as int);
            assert(mid =~= before.remove(qi as int));
            lemma_settled_id(q0.base, mk);
            assert(queue_ok(before_trees, k, q0));
            lemma_rebuilt(before_trees, k, nq, k);
            if succeeded && q0.pending[j as int].resolution != Some(Resolution::Failed) {
                lemma_replay_committed(q0.base, q0.pending, j as int);
                law_settling_keeps_the_shown_value(q0.base, mk);
                lemma_replayed_id(nq.base, nq.pending);
                lemma_locate(before_trees, k);
                if let Some(at) = locate(id_tree(before_trees), k) {
                    lemma_put_same(before_trees, at);
                }
            }
            if !succeeded {
                lemma_replay_failed(q0.base, q0.pending, j as int);
                law_settling_keeps_the_shown_value(q0.base, mk);
            }
        }
        if q.pending.len() == 0 {
            proof {
                assert forall|i: int| 0 <= i < self.queues@.len() implies #[trigger] queue_ok(
                    trees_view(self.trees@),
                    self.queues@[i].0@,
                    queue_view(self.queues@[i].1),
                ) by {
                    let i2 = if i < qi { i } else { i + 1 };
                    assert(self.queues@[i] == before[i2]);
                    assert(queue_ok(before_trees, before[i2].0@, queue_view(before[i2].1)));
                    assert(before[i2].0@ != before[qi as int].0@);
                    lemma_rebuilt(before_trees, k, nq, before[i2].0@);
                }
            }
        } else {
            self.queues.insert(qi, (key, q));
            proof {
                assert(self.queues@ =~= before.update(qi as int, self.queues@[qi as int]));
                lemma_queue_map_update(before, qi as int, self.queues@[qi as int]);
                assert forall|i: int| 0 <= i < self.queues@.len() implies #[trigger] queue_ok(
                    trees_view(self.trees@),
                    self.queues@[i].0@,
                    queue_view(self.queues@[i].1),
                ) by {
                    if i != qi {
                        assert(self.queues@[i] == before[i]);
                        assert(queue_ok(before_trees, before[i].0@, queue_view(before[i].1)));
                        assert(before[i].0@ != before[qi as int].0@);
                        lemma_rebuilt(before_trees, k, nq, before[i].0@);
                    }
                }
            }
        }
        true
    }
}

} // verus!
