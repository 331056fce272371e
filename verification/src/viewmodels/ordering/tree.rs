//! Reordering inside the cached project tree.
//!
//! The tree is the view model's copy of what storage holds, so a drag has to
//! change it and storage together. These functions apply the move to the tree
//! and hand back the patches that make storage agree; they perform no I/O.
//!
//! Ids are the canonical text of the stored UUIDs.

use vstd::prelude::*;
use crate::search::resolve::{id_from, lemma_id_from};
use crate::settings::sorting::{sort_by_key, sorted_by_key};
use crate::text::same_text;

verus! {

/// A task, as far as its place in a list is concerned.
#[derive(Debug, Clone, PartialEq, Eq)]
pub struct TaskEntry {
    pub id: String,
    pub list_id: String,
    pub title: String,
    pub order_index: i32,
}

#[derive(Debug, Clone, PartialEq, Eq)]
pub struct TaskListNode {
    pub id: String,
    pub tasks: Vec<TaskEntry>,
}

#[derive(Debug, Clone, PartialEq, Eq)]
pub struct ProjectNode {
    pub id: String,
    pub task_lists: Vec<TaskListNode>,
}

/// The fields a move writes back to storage.
#[derive(Debug, Clone, Default, PartialEq, Eq)]
pub struct OrderPatch {
    pub order_index: Option<i32>,
    pub list_id: Option<String>,
}

pub struct TaskView {
    pub id: Seq<char>,
    pub list_id: Seq<char>,
    pub title: Seq<char>,
    pub order_index: i32,
}

pub struct ListView {
    pub id: Seq<char>,
    pub tasks: Seq<TaskView>,
}

pub struct ProjectView {
    pub id: Seq<char>,
    pub lists: Seq<ListView>,
}

pub struct PatchView {
    pub order_index: Option<i32>,
    pub list_id: Option<Seq<char>>,
}

impl View for TaskEntry {
    type V = TaskView;

    open spec fn view(&self) -> TaskView {
        TaskView { id: self.id@, list_id: self.list_id@, title: self.title@, order_index: self.order_index }
    }
}

impl View for TaskListNode {
    type V = ListView;

    open spec fn view(&self) -> ListView {
        ListView { id: self.id@, tasks: self.tasks@.map_values(|t: TaskEntry| t@) }
    }
}

impl View for ProjectNode {
    type V = ProjectView;

    open spec fn view(&self) -> ProjectView {
        ProjectView { id: self.id@, lists: self.task_lists@.map_values(|l: TaskListNode| l@) }
    }
}

impl View for OrderPatch {
    type V = PatchView;

    open spec fn view(&self) -> PatchView {
        PatchView {
            order_index: self.order_index,
            list_id: match self.list_id {
                Some(s) => Some(s@),
                None => None,
            },
        }
    }
}

pub open spec fn projects_view(v: Seq<ProjectNode>) -> Seq<ProjectView> {
    v.map_values(|p: ProjectNode| p@)
}

pub open spec fn updates_view(v: Seq<(String, OrderPatch)>) -> Seq<(Seq<char>, PatchView)> {
    v.map_values(|u: (String, OrderPatch)| (u.0@, u.1@))
}

pub open spec fn task_ids(ts: Seq<TaskView>) -> Seq<Seq<char>> {
    ts.map_values(|t: TaskView| t.id)
}

/// Where a dropped task goes among `ids`: after `previous` when it is one of
/// them, else before `next` when it is, else at the end.
pub open spec fn insertion_at(ids: Seq<Seq<char>>, previous: Option<Seq<char>>, next: Option<Seq<char>>) -> int {
    match (match previous {
        Some(p) => id_from(ids, p, 0),
        None => None,
    }) {
        Some(i) => i + 1,
        None => match (match next {
            Some(n) => id_from(ids, n, 0),
            None => None,
        }) {
            Some(i) => i,
            None => ids.len() as int,
        },
    }
}

pub open spec fn opt_text(o: Option<&str>) -> Option<Seq<char>> {
    match o {
        Some(s) => Some(s@),
        None => None,
    }
}

fn position(ids: &[String], id: &str) -> (r: Option<usize>)
    ensures
        match r {
            Some(k) => id_from(ids@.map_values(|s: String| s@), id@, 0) == Some(k as int),
            None => id_from(ids@.map_values(|s: String| s@), id@, 0) is None,
        },
{
    let ghost all = ids@.map_values(|s: String| s@);
    let mut i: usize = 0;
    while i < ids.len()
        invariant
            all == ids@.map_values(|s: String| s@),
            i <= ids@.len(),
            id_from(all, id@, i as int) == id_from(all, id@, 0),
        decreases ids@.len() - i,
    {
        if same_text(ids[i].as_str(), id) {
            return Some(i);
        }
        i = i + 1;
    }
    None
}

/// Where a task belongs in its list after being dropped.
///
/// The drop is given as the visible neighbours the task ended up between, not
/// as an index, because the visible list can be filtered by a search.
/// `previous` wins when both are known: it is the row the task was dropped
/// below. `full` must not contain the moved task.
pub fn insertion_index(full: &[String], previous: Option<&str>, next: Option<&str>) -> (r: usize)
    ensures
        r == insertion_at(full@.map_values(|s: String| s@), opt_text(previous), opt_text(next)),
{
    proof {
        let ids = full@.map_values(|s: String| s@);
        if let Some(p) = previous {
            lemma_id_from(ids, p@, 0);
        }
        if let Some(n) = next {
            lemma_id_from(ids, n@, 0);
        }
    }
    let n = full.len();
    match previous {
        Some(p) => match position(full, p) {
            Some(index) => {
                proof {
                    lemma_id_from(full@.map_values(|s: String| s@), p@, 0);
                }
                assert(index < n);
                return index + 1;
            },
            None => {},
        },
        None => {},
    }
    match next {
        Some(n) => match position(full, n) {
            Some(index) => return index,
            None => {},
        },
        None => {},
    }
    full.len()
}

/// `ts` in stored order: stably sorted by order index.
pub open spec fn in_stored_order(ts: Seq<TaskView>) -> Seq<TaskView> {
    sorted_by_key(ts.map_values(|t: TaskView| (t.order_index as i128, t))).map_values(|p: (i128, TaskView)| p.1)
}

/// Every list of every project in stored order.
pub open spec fn normalized(ps: Seq<ProjectView>) -> Seq<ProjectView> {
    ps.map_values(|p: ProjectView| ProjectView {
        lists: p.lists.map_values(|l: ListView| ListView { tasks: in_stored_order(l.tasks), ..l }),
        ..p
    })
}

fn sort_tasks(tasks: Vec<TaskEntry>) -> (r: Vec<TaskEntry>)
    ensures
        r@.map_values(|t: TaskEntry| t@) == in_stored_order(tasks@.map_values(|t: TaskEntry| t@)),
{
    let ghost tv = tasks@.map_values(|t: TaskEntry| t@);
    let mut keyed: Vec<(i128, TaskEntry)> = Vec::new();
    let mut rest = tasks;
    let ghost all = rest@;
    let n = rest.len();
    let mut i: usize = 0;
    while rest.len() > 0
        invariant
            all.len() == n,
            all.len() == i + rest@.len(),
            rest@ == all.skip(i as int),
            tv == all.map_values(|t: TaskEntry| t@),
            keyed@.len() == i,
            forall|k: int| 0 <= k < i ==> (#[trigger] keyed@[k]) == (all[k].order_index as i128, all[k]),
        decreases rest@.len(),
    {
        let t = rest.remove(0);
        assert(rest@ =~= all.skip(i + 1));
        keyed.push((t.order_index as i128, t));
        i = i + 1;
    }
    let ghost kv = keyed@.map_values(|p: (i128, TaskEntry)| (p.0, p.1@));
    assert(kv =~= tv.map_values(|t: TaskView| (t.order_index as i128, t)));
    let sorted = sort_by_key(keyed);
    proof {
        lemma_sorted_map(keyed@);
    }
    let mut out: Vec<TaskEntry> = Vec::new();
    let mut s = sorted;
    let ghost sall = s@;
    let m = s.len();
    let mut j: usize = 0;
    while s.len() > 0
        invariant
            sall.len() == m,
            sall.len() == j + s@.len(),
            s@ == sall.skip(j as int),
            out@.len() == j,
            forall|k: int| 0 <= k < j ==> (#[trigger] out@[k]) == sall[k].1,
        decreases s@.len(),
    {
        let p = s.remove(0);
        assert(s@ =~= sall.skip(j + 1));
        out.push(p.1);
        j = j + 1;
    }
    assert(out@.map_values(|t: TaskEntry| t@) =~= sall.map_values(|p: (i128, TaskEntry)| (p.0, p.1@)).map_values(
        |p: (i128, TaskView)| p.1,
    ));
    out
}

/// Sorting commutes with viewing the sorted values.
proof fn lemma_sorted_map(s: Seq<(i128, TaskEntry)>)
    ensures
        sorted_by_key(s).map_values(|p: (i128, TaskEntry)| (p.0, p.1@)) == sorted_by_key(
            s.map_values(|p: (i128, TaskEntry)| (p.0, p.1@)),
        ),
    decreases s.len(),
{
    if s.len() > 0 {
        lemma_sorted_map(s.drop_last());
        assert(s.map_values(|p: (i128, TaskEntry)| (p.0, p.1@)).drop_last() =~= s.drop_last().map_values(
            |p: (i128, TaskEntry)| (p.0, p.1@),
        ));
        lemma_insert_map(sorted_by_key(s.drop_last()), s.last());
    }
}

proof fn lemma_insert_map(s: Seq<(i128, TaskEntry)>, x: (i128, TaskEntry))
    ensures
        crate::settings::sorting::insert_sorted(s, x).map_values(|p: (i128, TaskEntry)| (p.0, p.1@))
            == crate::settings::sorting::insert_sorted(
            s.map_values(|p: (i128, TaskEntry)| (p.0, p.1@)),
            (x.0, x.1@),
        ),
    decreases s.len(),
{
    let f = |p: (i128, TaskEntry)| (p.0, p.1@);
    if s.len() == 0 {
        assert(seq![x].map_values(f) =~= seq![(x.0, x.1@)]);
    } else if s.last().0 <= x.0 {
        assert(s.push(x).map_values(f) =~= s.map_values(f).push((x.0, x.1@)));
    } else {
        lemma_insert_map(s.drop_last(), x);
        assert(s.map_values(f).drop_last() =~= s.drop_last().map_values(f));
        assert(crate::settings::sorting::insert_sorted(s.drop_last(), x).push(s.last()).map_values(f)
            =~= crate::settings::sorting::insert_sorted(s.drop_last(), x).map_values(f).push(f(s.last())));
    }
}

/// Puts every list in stored order.
///
/// Storage returns tasks in no particular order, and the manual ordering is
/// exactly the order index, so the tree is put in order once on load.
pub fn normalize(trees: &mut Vec<ProjectNode>)
    ensures
        projects_view(final(trees)@) == normalized(projects_view(old(trees)@)),
{
    let ghost before = projects_view(trees@);
    let mut rest: Vec<ProjectNode> = Vec::new();
    std::mem::swap(&mut rest, trees);
    let ghost all = rest@;
    let n = rest.len();
    let mut out: Vec<ProjectNode> = Vec::new();
    let mut i: usize = 0;
    while rest.len() > 0
        invariant
            all.len() == n,
            all.len() == i + rest@.len(),
            rest@ == all.skip(i as int),
            before == projects_view(all),
            out@.len() == i,
            forall|k: int| 0 <= k < i ==> (#[trigger] out@[k])@ == normalized(before)[k],
        decreases rest@.len(),
    {
        let project = rest.remove(0);
        assert(rest@ =~= all.skip(i + 1));
        let ghost pv = project@;
        let mut lists_rest = project.task_lists;
        let ghost lall = lists_rest@;
        let ln = lists_rest.len();
        let mut lists: Vec<TaskListNode> = Vec::new();
        let mut j: usize = 0;
        while lists_rest.len() > 0
            invariant
                lall.len() == ln,
                lall.len() == j + lists_rest@.len(),
                lists_rest@ == lall.skip(j as int),
                lists@.len() == j,
                forall|k: int| 0 <= k < j ==> (#[trigger] lists@[k])@ == (ListView { tasks: in_stored_order(lall[k]@.tasks), ..lall[k]@ }),
            decreases lists_rest@.len(),
        {
            let list = lists_rest.remove(0);
            assert(lists_rest@ =~= lall.skip(j + 1));
            let tasks = sort_tasks(list.tasks);
            lists.push(TaskListNode { id: list.id, tasks });
            j = j + 1;
        }
        let node = ProjectNode { id: project.id, task_lists: lists };
        assert(node@.lists =~= pv.lists.map_values(|l: ListView| ListView { tasks: in_stored_order(l.tasks), ..l }));
        out.push(node);
        i = i + 1;
    }
    assert(projects_view(out@) =~= normalized(before));
    *trees = out;
}


/// The canonical text of the UUID `text` spells, if it spells one.
pub uninterp spec fn uuid_text(text: Seq<char>) -> Option<Seq<char>>;

/// Calls `uuid::Uuid::try_parse` and writes a parsed id back in its canonical
/// hyphenated form. What that parse accepts is not restated here: the result
/// is named by [`uuid_text`], a function of the text alone.
#[verifier::external_body]
fn canonical_uuid(text: &str) -> (r: Option<String>)
    ensures
        match r {
            Some(s) => uuid_text(text@) == Some(s@),
            None => uuid_text(text@) is None,
        },
{
    uuid::Uuid::try_parse(text).ok().map(|id| id.to_string())
}

pub open spec fn holds_task(l: ListView, id: Seq<char>) -> bool {
    id_from(task_ids(l.tasks), id, 0) is Some
}

/// The first list from `i` on that holds the task `id`.
pub open spec fn list_holding(lists: Seq<ListView>, id: Seq<char>, i: int) -> Option<int>
    decreases lists.len() - i,
{
    if i < 0 || i >= lists.len() {
        None
    } else if holds_task(lists[i], id) {
        Some(i)
    } else {
        list_holding(lists, id, i + 1)
    }
}

/// The first project from `i` on with a list that holds the task `id`.
pub open spec fn project_holding(ps: Seq<ProjectView>, id: Seq<char>, i: int) -> Option<int>
    decreases ps.len() - i,
{
    if i < 0 || i >= ps.len() {
        None
    } else if list_holding(ps[i].lists, id, 0) is Some {
        Some(i)
    } else {
        project_holding(ps, id, i + 1)
    }
}

/// The first list from `i` on whose id is `id`.
pub open spec fn list_named(lists: Seq<ListView>, id: Seq<char>, i: int) -> Option<int>
    decreases lists.len() - i,
{
    if i < 0 || i >= lists.len() {
        None
    } else if lists[i].id == id {
        Some(i)
    } else {
        list_named(lists, id, i + 1)
    }
}

/// `ts` with order indexes counted from zero.
pub open spec fn renumbered(ts: Seq<TaskView>) -> Seq<TaskView> {
    Seq::new(ts.len(), |k: int| TaskView { order_index: k as i32, ..ts[k] })
}

/// A patch for every task whose order index renumbering changes.
pub open spec fn renumber_patches(ts: Seq<TaskView>) -> Seq<(Seq<char>, PatchView)>
    decreases ts.len(),
{
    if ts.len() == 0 {
        Seq::empty()
    } else {
        let k = ts.len() - 1;
        let front = renumber_patches(ts.drop_last());
        if ts[k].order_index != k as i32 {
            front.push((ts[k].id, PatchView { order_index: Some(k as i32), list_id: None }))
        } else {
            front
        }
    }
}

/// The tree, project id and patches a reorder gives, or `None` when the task
/// is not in the tree.
pub open spec fn reordered(
    ps: Seq<ProjectView>,
    task_id: Seq<char>,
    previous: Option<Seq<char>>,
    next: Option<Seq<char>>,
) -> Option<(Seq<ProjectView>, Seq<char>, Seq<(Seq<char>, PatchView)>)> {
    match project_holding(ps, task_id, 0) {
        None => None,
        Some(p) => match list_holding(ps[p].lists, task_id, 0) {
            None => None,
            Some(l) => {
                let ts = ps[p].lists[l].tasks;
                match id_from(task_ids(ts), task_id, 0) {
                    None => None,
                    Some(from) => {
                        let rest = ts.remove(from);
                        let moved = rest.insert(insertion_at(task_ids(rest), previous, next), ts[from]);
                        let list = ListView { tasks: renumbered(moved), ..ps[p].lists[l] };
                        let project = ProjectView { lists: ps[p].lists.update(l, list), ..ps[p] };
                        Some((ps.update(p, project), ps[p].id, renumber_patches(moved)))
                    },
                }
            },
        },
    }
}

/// The first patch from `i` on for the task `id`.
pub open spec fn patch_for(ups: Seq<(Seq<char>, PatchView)>, id: Seq<char>, i: int) -> Option<int>
    decreases ups.len() - i,
{
    if i < 0 || i >= ups.len() {
        None
    } else if ups[i].0 == id {
        Some(i)
    } else {
        patch_for(ups, id, i + 1)
    }
}

/// `ups` recording that the task `id` moved to the list `target`.
pub open spec fn with_moved_list(ups: Seq<(Seq<char>, PatchView)>, id: Seq<char>, target: Seq<char>) -> Seq<(Seq<char>, PatchView)> {
    match patch_for(ups, id, 0) {
        Some(k) => ups.update(k, (ups[k].0, PatchView { list_id: Some(target), ..ups[k].1 })),
        None => ups.push((id, PatchView { order_index: None, list_id: Some(target) })),
    }
}

/// The tree, project id and patches a move to another list gives, or `None`
/// when the task or the target cannot be found in one project, or the target
/// is the task's own list.
pub open spec fn moved_to_list(
    ps: Seq<ProjectView>,
    task_id: Seq<char>,
    target_text: Seq<char>,
) -> Option<(Seq<ProjectView>, Seq<char>, Seq<(Seq<char>, PatchView)>)> {
    match project_holding(ps, task_id, 0) {
        None => None,
        Some(p) => match uuid_text(target_text) {
            None => None,
            Some(target) => {
                let lists = ps[p].lists;
                if list_named(lists, target, 0) is None {
                    None
                } else {
                    match list_holding(lists, task_id, 0) {
                        None => None,
                        Some(src) => if lists[src].id == target {
                            None
                        } else {
                            match id_from(task_ids(lists[src].tasks), task_id, 0) {
                                None => None,
                                Some(from) => {
                                    let task = TaskView { list_id: target, ..lists[src].tasks[from] };
                                    let lists1 = lists.update(src, ListView { tasks: lists[src].tasks.remove(from), ..lists[src] });
                                    match list_named(lists1, target, 0) {
                                        None => None,
                                        Some(t) => {
                                            let appended = lists1[t].tasks.push(task);
                                            let lists2 = lists1.update(t, ListView { tasks: renumbered(appended), ..lists1[t] });
                                            Some((
                                                ps.update(p, ProjectView { lists: lists2, ..ps[p] }),
                                                ps[p].id,
                                                with_moved_list(renumber_patches(appended), task.id, target),
                                            ))
                                        },
                                    }
                                },
                            }
                        },
                    }
                }
            },
        },
    }
}

pub open spec fn result_view(r: Option<(String, Vec<(String, OrderPatch)>)>) -> Option<(Seq<char>, Seq<(Seq<char>, PatchView)>)> {
    match r {
        Some((id, ups)) => Some((id@, updates_view(ups@))),
        None => None,
    }
}

pub open spec fn lists_view(v: Seq<TaskListNode>) -> Seq<ListView> {
    v.map_values(|l: TaskListNode| l@)
}

pub open spec fn tasks_view(v: Seq<TaskEntry>) -> Seq<TaskView> {
    v.map_values(|t: TaskEntry| t@)
}

fn task_position(tasks: &Vec<TaskEntry>, id: &str) -> (r: Option<usize>)
    ensures
        match r {
            Some(k) => id_from(task_ids(tasks_view(tasks@)), id@, 0) == Some(k as int) && k < tasks@.len(),
            None => id_from(task_ids(tasks_view(tasks@)), id@, 0) is None,
        },
{
    let ghost ids = task_ids(tasks_view(tasks@));
    let mut i: usize = 0;
    while i < tasks.len()
        invariant
            ids == task_ids(tasks_view(tasks@)),
            i <= tasks@.len(),
            id_from(ids, id@, i as int) == id_from(ids, id@, 0),
        decreases tasks@.len() - i,
    {
        if same_text(tasks[i].id.as_str(), id) {
            return Some(i);
        }
        i = i + 1;
    }
    None
}

fn find_list_holding(lists: &Vec<TaskListNode>, id: &str) -> (r: Option<usize>)
    ensures
        match r {
            Some(k) => list_holding(lists_view(lists@), id@, 0) == Some(k as int) && k < lists@.len(),
            None => list_holding(lists_view(lists@), id@, 0) is None,
        },
{
    let ghost ls = lists_view(lists@);
    let mut i: usize = 0;
    while i < lists.len()
        invariant
            ls == lists_view(lists@),
            i <= lists@.len(),
            list_holding(ls, id@, i as int) == list_holding(ls, id@, 0),
        decreases lists@.len() - i,
    {
        assert(ls[i as int] == lists@[i as int]@);
        if task_position(&lists[i].tasks, id).is_some() {
            return Some(i);
        }
        i = i + 1;
    }
    None
}

fn find_list_named(lists: &Vec<TaskListNode>, id: &str) -> (r: Option<usize>)
    ensures
        match r {
            Some(k) => list_named(lists_view(lists@), id@, 0) == Some(k as int) && k < lists@.len(),
            None => list_named(lists_view(lists@), id@, 0) is None,
        },
{
    let ghost ls = lists_view(lists@);
    let mut i: usize = 0;
    while i < lists.len()
        invariant
            ls == lists_view(lists@),
            i <= lists@.len(),
            list_named(ls, id@, i as int) == list_named(ls, id@, 0),
        decreases lists@.len() - i,
    {
        assert(ls[i as int] == lists@[i as int]@);
        if same_text(lists[i].id.as_str(), id) {
            return Some(i);
        }
        i = i + 1;
    }
    None
}

fn find_project_holding(trees: &Vec<ProjectNode>, id: &str) -> (r: Option<usize>)
    ensures
        match r {
            Some(k) => project_holding(projects_view(trees@), id@, 0) == Some(k as int) && k < trees@.len(),
            None => project_holding(projects_view(trees@), id@, 0) is None,
        },
{
    let ghost ps = projects_view(trees@);
    let mut i: usize = 0;
    while i < trees.len()
        invariant
            ps == projects_view(trees@),
            i <= trees@.len(),
            project_holding(ps, id@, i as int) == project_holding(ps, id@, 0),
        decreases trees@.len() - i,
    {
        assert(ps[i as int] == trees@[i as int]@);
        if find_list_holding(&trees[i].task_lists, id).is_some() {
            return Some(i);
        }
        i = i + 1;
    }
    None
}

/// Renumbers the order indexes from zero, returning a patch per task that moved.
fn renumber(tasks: &mut Vec<TaskEntry>) -> (r: Vec<(String, OrderPatch)>)
    ensures
        tasks_view(final(tasks)@) == renumbered(tasks_view(old(tasks)@)),
        updates_view(r@) == renumber_patches(tasks_view(old(tasks)@)),
{
    let ghost before = tasks_view(tasks@);
    let mut out: Vec<(String, OrderPatch)> = Vec::new();
    let mut i: usize = 0;
    assert(before.take(0) =~= Seq::<TaskView>::empty());
    assert(updates_view(out@) =~= Seq::<(Seq<char>, PatchView)>::empty());
    while i < tasks.len()
        invariant
            before.len() == tasks@.len(),
            i <= tasks@.len(),
            forall|k: int| 0 <= k < i ==> (#[trigger] tasks@[k])@ == renumbered(before)[k],
            forall|k: int| i <= k < tasks@.len() ==> (#[trigger] tasks@[k])@ == before[k],
            updates_view(out@) == renumber_patches(before.take(i as int)),
        decreases tasks@.len() - i,
    {
        let order = i as i32;
        let ghost prev = tasks@;
        proof {
            assert(before.take(i + 1).drop_last() =~= before.take(i as int));
            assert(tasks@[i as int]@ == before[i as int]);
        }
        if tasks[i].order_index != order {
            let mut task = tasks.remove(i);
            out.push((task.id.clone(), OrderPatch { order_index: Some(order), list_id: None }));
            task.order_index = order;
            tasks.insert(i, task);
            proof {
                assert forall|k: int| 0 <= k < tasks@.len() && k != i implies #[trigger] tasks@[k] == prev[k] by {}
            }
        }
        assert(updates_view(out@) =~= renumber_patches(before.take(i + 1)));
        i = i + 1;
    }
    assert(before.take(tasks@.len() as int) =~= before);
    assert(tasks_view(tasks@) =~= renumbered(before));
    out
}

proof fn lemma_insertion_at_bound(ids: Seq<Seq<char>>, previous: Option<Seq<char>>, next: Option<Seq<char>>)
    ensures
        0 <= insertion_at(ids, previous, next) <= ids.len(),
{
    if let Some(p) = previous {
        lemma_id_from(ids, p, 0);
    }
    if let Some(n) = next {
        lemma_id_from(ids, n, 0);
    }
}

fn task_id_list(tasks: &Vec<TaskEntry>) -> (r: Vec<String>)
    ensures
        r@.map_values(|s: String| s@) == task_ids(tasks_view(tasks@)),
{
    let mut out: Vec<String> = Vec::new();
    let mut i: usize = 0;
    while i < tasks.len()
        invariant
            i <= tasks@.len(),
            out@.len() == i,
            forall|k: int| 0 <= k < i ==> (#[trigger] out@[k])@ == tasks@[k].id@,
        decreases tasks@.len() - i,
    {
        out.push(tasks[i].id.clone());
        i = i + 1;
    }
    assert(out@.map_values(|s: String| s@) =~= task_ids(tasks_view(tasks@)));
    out
}

/// Moves a task between the two tasks it was dropped between.
///
/// The neighbours are visible rows, which may be a filtered subset of the
/// list; see [`insertion_index`] for how the position is resolved. Returns
/// `None`, and changes nothing, when the task is not in the tree.
pub fn reorder_task(
    trees: &mut Vec<ProjectNode>,
    task_id: &str,
    previous: Option<&str>,
    next: Option<&str>,
) -> (r: Option<(String, Vec<(String, OrderPatch)>)>)
    ensures
        match reordered(projects_view(old(trees)@), task_id@, opt_text(previous), opt_text(next)) {
            None => r is None && projects_view(final(trees)@) == projects_view(old(trees)@),
            Some((ps, id, ups)) => result_view(r) == Some((id, ups)) && projects_view(final(trees)@) == ps,
        },
{
    let ghost ps = projects_view(trees@);
    let p = match find_project_holding(trees, task_id) {
        Some(p) => p,
        None => return None,
    };
    assert(ps[p as int] == trees@[p as int]@);
    let l = match find_list_holding(&trees[p].task_lists, task_id) {
        Some(l) => l,
        None => return None,
    };
    assert(ps[p as int].lists[l as int] == trees@[p as int].task_lists@[l as int]@);
    let from = match task_position(&trees[p].task_lists[l].tasks, task_id) {
        Some(from) => from,
        None => return None,
    };
    let mut project = trees.remove(p);
    let mut list = project.task_lists.remove(l);
    let ghost ts = tasks_view(list.tasks@);
    let task = list.tasks.remove(from);
    assert(tasks_view(list.tasks@) =~= ts.remove(from as int));
    let ids = task_id_list(&list.tasks);
    let at = insertion_index(ids.as_slice(), previous, next);
    proof {
        lemma_insertion_at_bound(task_ids(tasks_view(list.tasks@)), opt_text(previous), opt_text(next));
    }
    let ghost rest = tasks_view(list.tasks@);
    list.tasks.insert(at, task);
    assert(tasks_view(list.tasks@) =~= rest.insert(at as int, ts[from as int]));
    let updates = renumber(&mut list.tasks);
    let ghost lists_before = lists_view(project.task_lists@);
    project.task_lists.insert(l, list);
    let pid = project.id.clone();
    let ghost trees_before = projects_view(trees@);
    trees.insert(p, project);
    proof {
        assert(lists_view(project.task_lists@) =~= ps[p as int].lists.update(l as int, project.task_lists@[l as int]@));
        assert(projects_view(trees@) =~= ps.update(p as int, trees@[p as int]@));
    }
    Some((pid, updates))
}


fn record_move(updates: &mut Vec<(String, OrderPatch)>, moved_id: &String, target: &String)
    ensures
        updates_view(final(updates)@) == with_moved_list(updates_view(old(updates)@), moved_id@, target@),
{
    let ghost ups = updates_view(updates@);
    let mut i: usize = 0;
    while i < updates.len()
        invariant
            ups == updates_view(updates@),
            updates@ == old(updates)@,
            i <= updates@.len(),
            patch_for(ups, moved_id@, i as int) == patch_for(ups, moved_id@, 0),
        decreases updates@.len() - i,
    {
        if same_text(updates[i].0.as_str(), moved_id.as_str()) {
            let (id, patch) = updates.remove(i);
            updates.insert(i, (id, OrderPatch { order_index: patch.order_index, list_id: Some(target.clone()) }));
            assert(updates_view(updates@) =~= with_moved_list(ups, moved_id@, target@));
            return;
        }
        i = i + 1;
    }
    updates.push((moved_id.clone(), OrderPatch { order_index: None, list_id: Some(target.clone()) }));
    assert(updates_view(updates@) =~= with_moved_list(ups, moved_id@, target@));
}

/// Moves a task to the end of another list in the same project.
///
/// Returns `None`, and changes nothing, when either end of the move cannot be
/// resolved, including a target in a different project: tasks are stored per
/// project, so that is a different operation rather than a longer move. The
/// source list keeps the gap the task leaves: its order is still right, and
/// renumbering it would double the writes.
pub fn move_task_to_list(
    trees: &mut Vec<ProjectNode>,
    task_id: &str,
    target_list_id: &str,
) -> (r: Option<(String, Vec<(String, OrderPatch)>)>)
    ensures
        match moved_to_list(projects_view(old(trees)@), task_id@, target_list_id@) {
            None => r is None && projects_view(final(trees)@) == projects_view(old(trees)@),
            Some((ps, id, ups)) => result_view(r) == Some((id, ups)) && projects_view(final(trees)@) == ps,
        },
{
    let ghost ps = projects_view(trees@);
    let p = match find_project_holding(trees, task_id) {
        Some(p) => p,
        None => return None,
    };
    assert(ps[p as int] == trees@[p as int]@);
    let target = match canonical_uuid(target_list_id) {
        Some(target) => target,
        None => return None,
    };
    if find_list_named(&trees[p].task_lists, target.as_str()).is_none() {
        return None;
    }
    let src = match find_list_holding(&trees[p].task_lists, task_id) {
        Some(src) => src,
        None => return None,
    };
    assert(ps[p as int].lists[src as int] == trees@[p as int].task_lists@[src as int]@);
    if same_text(trees[p].task_lists[src].id.as_str(), target.as_str()) {
        return None;
    }
    let from = match task_position(&trees[p].task_lists[src].tasks, task_id) {
        Some(from) => from,
        None => return None,
    };
    let mut project = trees.remove(p);
    let ghost lists = lists_view(project.task_lists@);
    let mut source = project.task_lists.remove(src);
    let ghost st = tasks_view(source.tasks@);
    let mut task = source.tasks.remove(from);
    assert(tasks_view(source.tasks@) =~= st.remove(from as int));
    task.list_id = target.clone();
    let moved_id = task.id.clone();
    project.task_lists.insert(src, source);
    let ghost lists1 = lists_view(project.task_lists@);
    assert(lists1 =~= lists.update(src as int, ListView { tasks: st.remove(from as int), ..lists[src as int] }));
    let t = match find_list_named(&project.task_lists, target.as_str()) {
        Some(t) => t,
        None => {
            proof {
                assert(false) by {
                    let k = choose|k: int| list_named(lists, target@, 0) == Some(k);
                    assert forall|i: int| 0 <= i < lists.len() implies lists1[i].id == lists[i].id by {}
                    lemma_list_named_same_ids(lists, lists1, target@, 0);
                }
            }
            return None;
        },
    };
    let mut target_list = project.task_lists.remove(t);
    let ghost before_append = tasks_view(target_list.tasks@);
    target_list.tasks.push(task);
    let ghost appended = tasks_view(target_list.tasks@);
    let mut updates = renumber(&mut target_list.tasks);
    project.task_lists.insert(t, target_list);
    record_move(&mut updates, &moved_id, &target);
    let pid = project.id.clone();
    trees.insert(p, project);
    proof {
        assert(appended =~= before_append.push(TaskView { list_id: target@, ..st[from as int] }));
        assert(lists_view(project.task_lists@) =~= lists1.update(t as int, project.task_lists@[t as int]@));
        assert(projects_view(trees@) =~= ps.update(p as int, trees@[p as int]@));
    }
    Some((pid, updates))
}

proof fn lemma_list_named_same_ids(a: Seq<ListView>, b: Seq<ListView>, id: Seq<char>, i: int)
    requires
        a.len() == b.len(),
        forall|k: int| 0 <= k < a.len() ==> a[k].id == b[k].id,
    ensures
        list_named(a, id, i) == list_named(b, id, i),
    decreases a.len() - i,
{
    if 0 <= i < a.len() {
        lemma_list_named_same_ids(a, b, id, i + 1);
    }
}

} // verus!
