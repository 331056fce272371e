//! The names the search box resolves, and where the quick-add field puts a
//! new task.

use vstd::prelude::*;
use crate::search::resolve::{NameIndex, ProjectEntry, ListEntry, UserEntry, Reference, ReferenceView, refs_view};
use crate::search::lexer::strings_view;
use crate::text::{same_text, has_substring, contains_text, trim, trimmed};
use crate::search::eval::{Prepared, SearchUnit, EvalContext, matches_unit};
use crate::search::vocabulary::UnitStatus;
use crate::viewmodels::runtime_store::TaskStatus;
use crate::search::normalize::{fold, folded};
use crate::adapters::color::Rgb;
use crate::adapters::tag::{stored_color, brush_of, parse_stored_color};

verus! {

/// A task of the loaded hierarchy, with what the main window reads of it.
/// Instants are nanoseconds since the Unix epoch, UTC.
#[derive(Debug, Clone, PartialEq, Eq)]
pub struct TaskInfo {
    pub id: String,
    pub title: String,
    pub deleted: bool,
    pub is_archived: bool,
    pub reminders: Vec<i128>,
    pub tag_ids: Vec<String>,
    pub subtask_ids: Vec<String>,
}

/// A task list of the loaded hierarchy.
#[derive(Debug, Clone, PartialEq, Eq)]
pub struct ListInfo {
    pub id: String,
    pub project_id: String,
    pub name: String,
    pub deleted: bool,
    pub is_archived: bool,
    pub tasks: Vec<TaskInfo>,
}

/// A project of the loaded hierarchy.
#[derive(Debug, Clone, PartialEq, Eq)]
pub struct ProjectInfo {
    pub id: String,
    pub name: String,
    pub color: Option<String>,
    pub deleted: bool,
    pub is_archived: bool,
    pub lists: Vec<ListInfo>,
}

/// Whether a project's lists can take tasks.
pub open spec fn project_live(p: ProjectInfo, show_archived: bool) -> bool {
    !p.deleted && (show_archived || !p.is_archived)
}

/// Whether a list can take tasks.
pub open spec fn list_live(l: ListInfo) -> bool {
    !l.deleted && !l.is_archived
}

/// The places of the live lists among the first `m` lists of project `p`.
pub open spec fn live_in(ps: Seq<ProjectInfo>, p: int, m: int) -> Seq<(int, int)>
    decreases m,
{
    if m <= 0 {
        Seq::empty()
    } else if list_live(ps[p].lists@[m - 1]) {
        live_in(ps, p, m - 1).push((p, m - 1))
    } else {
        live_in(ps, p, m - 1)
    }
}

/// The places of the lists a task can be added to, among the first `n`
/// projects, in order.
pub open spec fn live_upto(ps: Seq<ProjectInfo>, show_archived: bool, n: int) -> Seq<(int, int)>
    decreases n,
{
    if n <= 0 {
        Seq::empty()
    } else if project_live(ps[n - 1], show_archived) {
        live_upto(ps, show_archived, n - 1) + live_in(ps, n - 1, ps[n - 1].lists@.len() as int)
    } else {
        live_upto(ps, show_archived, n - 1)
    }
}

/// The places of the lists a task can be added to, in order.
pub open spec fn live_places(ps: Seq<ProjectInfo>, show_archived: bool) -> Seq<(int, int)> {
    live_upto(ps, show_archived, ps.len() as int)
}

pub open spec fn list_at(ps: Seq<ProjectInfo>, at: (int, int)) -> ListInfo {
    ps[at.0].lists@[at.1]
}

/// The ids of the lists a task can be added to, in order.
pub open spec fn live_ids(ps: Seq<ProjectInfo>, show_archived: bool) -> Seq<Seq<char>> {
    live_places(ps, show_archived).map_values(|at: (int, int)| list_at(ps, at).id@)
}

proof fn lemma_live_in(ps: Seq<ProjectInfo>, p: int, m: int)
    requires
        0 <= p < ps.len(),
        m <= ps[p].lists@.len(),
    ensures
        forall|i: int| 0 <= i < live_in(ps, p, m).len() ==> {
            let at = #[trigger] live_in(ps, p, m)[i];
            at.0 == p && 0 <= at.1 < m && list_live(ps[p].lists@[at.1])
        },
    decreases m,
{
    if m > 0 {
        lemma_live_in(ps, p, m - 1);
        let a = live_in(ps, p, m - 1);
        assert forall|i: int| 0 <= i < live_in(ps, p, m).len() implies {
            let at = #[trigger] live_in(ps, p, m)[i];
            at.0 == p && 0 <= at.1 < m && list_live(ps[p].lists@[at.1])
        } by {
            if i < a.len() {
                assert(live_in(ps, p, m)[i] == a[i]);
            }
        }
    }
}

proof fn lemma_live_upto(ps: Seq<ProjectInfo>, show_archived: bool, n: int)
    requires
        n <= ps.len(),
    ensures
        forall|i: int| 0 <= i < live_upto(ps, show_archived, n).len() ==> {
            let at = #[trigger] live_upto(ps, show_archived, n)[i];
            &&& 0 <= at.0 < n
            &&& 0 <= at.1 < ps[at.0].lists@.len()
            &&& project_live(ps[at.0], show_archived)
            &&& list_live(ps[at.0].lists@[at.1])
        },
    decreases n,
{
    if n > 0 {
        lemma_live_upto(ps, show_archived, n - 1);
        lemma_live_in(ps, n - 1, ps[n - 1].lists@.len() as int);
        let a = live_upto(ps, show_archived, n - 1);
        let b = live_in(ps, n - 1, ps[n - 1].lists@.len() as int);
        if project_live(ps[n - 1], show_archived) {
            assert forall|i: int| 0 <= i < (a + b).len() implies {
                let at = #[trigger] (a + b)[i];
                &&& 0 <= at.0 < n
                &&& 0 <= at.1 < ps[at.0].lists@.len()
                &&& project_live(ps[at.0], show_archived)
                &&& list_live(ps[at.0].lists@[at.1])
            } by {
                if i >= a.len() {
                    assert((a + b)[i] == b[i - a.len()]);
                }
            }
        }
    }
}

/// The places of the lists a task can be added to, in order.
pub fn live_lists(trees: &Vec<ProjectInfo>, show_archived: bool) -> (r: Vec<(usize, usize)>)
    ensures
        r@.map_values(|at: (usize, usize)| (at.0 as int, at.1 as int)) == live_places(trees@, show_archived),
        forall|i: int| 0 <= i < r@.len() ==> {
            let at = #[trigger] r@[i];
            &&& at.0 < trees@.len()
            &&& at.1 < trees@[at.0 as int].lists@.len()
        },
{
    let ghost ps = trees@;
    let mut out: Vec<(usize, usize)> = Vec::new();
    let mut p: usize = 0;
    while p < trees.len()
        invariant
            ps == trees@,
            p <= ps.len(),
            out@.map_values(|at: (usize, usize)| (at.0 as int, at.1 as int)) == live_upto(ps, show_archived, p as int),
            forall|i: int| 0 <= i < out@.len() ==> {
                let at = #[trigger] out@[i];
                &&& at.0 < p
                &&& at.1 < ps[at.0 as int].lists@.len()
            },
        decreases ps.len() - p,
    {
        let tree = &trees[p];
        if !tree.deleted && (show_archived || !tree.is_archived) {
            let ghost before = out@.map_values(|at: (usize, usize)| (at.0 as int, at.1 as int));
            let mut l: usize = 0;
            while l < tree.lists.len()
                invariant
                    ps == trees@,
                    p < ps.len(),
                    tree == &ps[p as int],
                    l <= tree.lists@.len(),
                    out@.map_values(|at: (usize, usize)| (at.0 as int, at.1 as int)) == before + live_in(ps, p as int, l as int),
                    forall|i: int| 0 <= i < out@.len() ==> {
                        let at = #[trigger] out@[i];
                        &&& at.0 <= p
                        &&& at.1 < ps[at.0 as int].lists@.len()
                    },
                decreases tree.lists@.len() - l,
            {
                let list = &tree.lists[l];
                if !list.deleted && !list.is_archived {
                    let ghost prev = out@;
                    out.push((p, l));
                    assert(out@.map_values(|at: (usize, usize)| (at.0 as int, at.1 as int)) =~= prev.map_values(
                        |at: (usize, usize)| (at.0 as int, at.1 as int),
                    ).push((p as int, l as int)));
                }
                l = l + 1;
            }
        }
        p = p + 1;
    }
    out
}

/// A project entry of the search index, as plain values: id, name, colour
/// text, number of live lists, archived.
pub open spec fn project_entry_view(e: ProjectEntry) -> (Seq<char>, Seq<char>, Seq<char>, usize, bool) {
    (e.id@, e.name@, e.color@, e.list_count, e.archived)
}

/// A list entry of the search index, as plain values: id, project id, name.
pub open spec fn list_entry_view(e: ListEntry) -> (Seq<char>, Seq<char>, Seq<char>) {
    (e.id@, e.project_id@, e.name@)
}

/// The number of lists of `ls` that can take tasks.
pub open spec fn live_count(ls: Seq<ListInfo>) -> nat
    decreases ls.len(),
{
    if ls.len() == 0 {
        0
    } else {
        live_count(ls.drop_last()) + if list_live(ls.last()) { 1nat } else { 0nat }
    }
}

/// The project entries the search box resolves names against: every project
/// that is not deleted.
pub open spec fn index_projects(ps: Seq<ProjectInfo>) -> Seq<(Seq<char>, Seq<char>, Seq<char>, usize, bool)>
    decreases ps.len(),
{
    if ps.len() == 0 {
        Seq::empty()
    } else if ps.last().deleted {
        index_projects(ps.drop_last())
    } else {
        index_projects(ps.drop_last()).push(
            (
                ps.last().id@,
                ps.last().name@,
                match ps.last().color {
                    Some(c) => c@,
                    None => Seq::empty(),
                },
                live_count(ps.last().lists@) as usize,
                ps.last().is_archived,
            ),
        )
    }
}

/// The list entries of the projects of the index that can take tasks.
pub open spec fn index_lists_of(ls: Seq<ListInfo>) -> Seq<(Seq<char>, Seq<char>, Seq<char>)>
    decreases ls.len(),
{
    if ls.len() == 0 {
        Seq::empty()
    } else if list_live(ls.last()) {
        index_lists_of(ls.drop_last()).push((ls.last().id@, ls.last().project_id@, ls.last().name@))
    } else {
        index_lists_of(ls.drop_last())
    }
}

/// The list entries the search box resolves names against: the lists that
/// can take tasks, of every project that is not deleted.
pub open spec fn index_lists(ps: Seq<ProjectInfo>) -> Seq<(Seq<char>, Seq<char>, Seq<char>)>
    decreases ps.len(),
{
    if ps.len() == 0 {
        Seq::empty()
    } else if ps.last().deleted {
        index_lists(ps.drop_last())
    } else {
        index_lists(ps.drop_last()) + index_lists_of(ps.last().lists@)
    }
}

fn copy_text(o: &Option<String>) -> (r: String)
    ensures
        r@ == match *o {
            Some(c) => c@,
            None => Seq::<char>::empty(),
        },
{
    match o {
        Some(c) => c.clone(),
        None => String::new(),
    }
}

/// The index the search box resolves names with, built from the loaded
/// hierarchy and the users an `@` token can name.
pub fn build_index(trees: &Vec<ProjectInfo>, users: Vec<UserEntry>) -> (r: NameIndex)
    ensures
        r.project_entries().map_values(|e: ProjectEntry| project_entry_view(e)) == index_projects(trees@),
        r.list_entries().map_values(|e: ListEntry| list_entry_view(e)) == index_lists(trees@),
        r.user_entries() == users@,
{
    let ghost ps = trees@;
    let mut projects: Vec<ProjectEntry> = Vec::new();
    let mut lists: Vec<ListEntry> = Vec::new();
    let mut p: usize = 0;
    while p < trees.len()
        invariant
            ps == trees@,
            p <= ps.len(),
            projects@.map_values(|e: ProjectEntry| project_entry_view(e)) == index_projects(ps.take(p as int)),
            lists@.map_values(|e: ListEntry| list_entry_view(e)) == index_lists(ps.take(p as int)),
        decreases ps.len() - p,
    {
        proof {
            assert(ps.take(p + 1).drop_last() =~= ps.take(p as int));
        }
        let tree = &trees[p];
        if !tree.deleted {
            let ghost lists_before = lists@.map_values(|e: ListEntry| list_entry_view(e));
            let mut count: usize = 0;
            let mut l: usize = 0;
            while l < tree.lists.len()
                invariant
                    ps == trees@,
                    p < ps.len(),
                    tree == &ps[p as int],
                    l <= tree.lists@.len(),
                    count == live_count(tree.lists@.take(l as int)),
                    count <= l,
                    lists@.map_values(|e: ListEntry| list_entry_view(e)) == lists_before + index_lists_of(tree.lists@.take(l as int)),
                decreases tree.lists@.len() - l,
            {
                proof {
                    assert(tree.lists@.take(l + 1).drop_last() =~= tree.lists@.take(l as int));
                }
                let list = &tree.lists[l];
                if !list.deleted && !list.is_archived {
                    let ghost prev = lists@;
                    lists.push(ListEntry { id: list.id.clone(), project_id: list.project_id.clone(), name: list.name.clone() });
                    assert(lists@.map_values(|e: ListEntry| list_entry_view(e)) =~= prev.map_values(
                        |e: ListEntry| list_entry_view(e),
                    ).push(list_entry_view(lists@.last())));
                    count = count + 1;
                }
                l = l + 1;
            }
            proof {
                assert(tree.lists@.take(tree.lists@.len() as int) =~= tree.lists@);
            }
            let ghost prev = projects@;
            projects.push(ProjectEntry {
                id: tree.id.clone(),
                name: tree.name.clone(),
                color: copy_text(&tree.color),
                list_count: count,
                archived: tree.is_archived,
            });
            assert(projects@.map_values(|e: ProjectEntry| project_entry_view(e)) =~= prev.map_values(
                |e: ProjectEntry| project_entry_view(e),
            ).push(project_entry_view(projects@.last())));
        }
        p = p + 1;
    }
    proof {
        assert(ps.take(ps.len() as int) =~= ps);
    }
    NameIndex::new(projects, lists, users)
}

/// The ids the references name lists by, in order.
pub open spec fn named_lists(refs: Seq<ReferenceView>) -> Seq<Seq<char>>
    decreases refs.len(),
{
    if refs.len() == 0 {
        Seq::empty()
    } else {
        match refs.last() {
            ReferenceView::List(id) => named_lists(refs.drop_last()).push(id),
            _ => named_lists(refs.drop_last()),
        }
    }
}

/// The ids the references name projects by, in order.
pub open spec fn named_projects(refs: Seq<ReferenceView>) -> Seq<Seq<char>>
    decreases refs.len(),
{
    if refs.len() == 0 {
        Seq::empty()
    } else {
        match refs.last() {
            ReferenceView::Project(id) => named_projects(refs.drop_last()).push(id),
            _ => named_projects(refs.drop_last()),
        }
    }
}

/// The first of `recent` that is among `pool`.
pub open spec fn first_among(recent: Seq<Seq<char>>, pool: Seq<Seq<char>>) -> Option<Seq<char>>
    decreases recent.len(),
{
    if recent.len() == 0 {
        None
    } else if pool.contains(recent[0]) {
        Some(recent[0])
    } else {
        first_among(recent.drop_first(), pool)
    }
}

/// The ids of the lists at `places` that belong to the project `pid`.
pub open spec fn ids_in_project(ps: Seq<ProjectInfo>, places: Seq<(int, int)>, pid: Seq<char>) -> Seq<Seq<char>>
    decreases places.len(),
{
    if places.len() == 0 {
        Seq::empty()
    } else if ps[places.last().0].id@ == pid {
        ids_in_project(ps, places.drop_last(), pid).push(list_at(ps, places.last()).id@)
    } else {
        ids_in_project(ps, places.drop_last(), pid)
    }
}

/// Where a new task goes by default: the query's one list, or a list of its
/// one project (the one used last, else the first), else the list used last,
/// else the first list there is.
pub open spec fn default_target(
    refs: Seq<ReferenceView>,
    ps: Seq<ProjectInfo>,
    show_archived: bool,
    recent: Seq<Seq<char>>,
) -> Option<Seq<char>> {
    let lists = named_lists(refs);
    let projects = named_projects(refs);
    let live = live_ids(ps, show_archived);
    let in_project = if projects.len() == 1 {
        ids_in_project(ps, live_places(ps, show_archived), projects[0])
    } else {
        Seq::empty()
    };
    if lists.len() == 1 && live.contains(lists[0]) {
        Some(lists[0])
    } else if first_among(recent, in_project) is Some {
        first_among(recent, in_project)
    } else if in_project.len() > 0 {
        Some(in_project[0])
    } else if first_among(recent, live) is Some {
        first_among(recent, live)
    } else if live.len() > 0 {
        Some(live[0])
    } else {
        None
    }
}

fn contains_id(v: &Vec<String>, id: &str) -> (r: bool)
    ensures
        r == strings_view(v@).contains(id@),
{
    let mut i: usize = 0;
    while i < v.len()
        invariant
            i <= v@.len(),
            forall|j: int| 0 <= j < i ==> v@[j]@ != id@,
        decreases v@.len() - i,
    {
        if same_text(v[i].as_str(), id) {
            assert(strings_view(v@)[i as int] == id@);
            return true;
        }
        i = i + 1;
    }
    assert forall|j: int| 0 <= j < strings_view(v@).len() implies strings_view(v@)[j] != id@ by {
        assert(strings_view(v@)[j] == v@[j]@);
    }
    false
}

fn first_among_exec(recent: &Vec<String>, pool: &Vec<String>) -> (r: Option<String>)
    ensures
        match r {
            Some(x) => first_among(strings_view(recent@), strings_view(pool@)) == Some(x@),
            None => first_among(strings_view(recent@), strings_view(pool@)) is None,
        },
{
    let ghost all = strings_view(recent@);
    let mut i: usize = 0;
    assert(all.skip(0) =~= all);
    while i < recent.len()
        invariant
            i <= recent@.len(),
            all == strings_view(recent@),
            first_among(all.skip(i as int), strings_view(pool@)) == first_among(all, strings_view(pool@)),
        decreases recent@.len() - i,
    {
        proof {
            assert(all.skip(i as int).drop_first() =~= all.skip(i + 1));
            assert(all.skip(i as int)[0] == recent@[i as int]@);
        }
        if contains_id(pool, recent[i].as_str()) {
            return Some(recent[i].clone());
        }
        i = i + 1;
    }
    proof {
        assert(all.skip(i as int).len() == 0);
    }
    None
}

/// The ids of the lists a task can be added to, in order.
fn live_list_ids(trees: &Vec<ProjectInfo>, places: &Vec<(usize, usize)>) -> (r: Vec<String>)
    requires
        forall|i: int| 0 <= i < places@.len() ==> {
            let at = #[trigger] places@[i];
            &&& at.0 < trees@.len()
            &&& at.1 < trees@[at.0 as int].lists@.len()
        },
    ensures
        strings_view(r@) == places@.map_values(|at: (usize, usize)| (at.0 as int, at.1 as int)).map_values(
            |at: (int, int)| list_at(trees@, at).id@,
        ),
{
    let ghost target = places@.map_values(|at: (usize, usize)| (at.0 as int, at.1 as int)).map_values(
        |at: (int, int)| list_at(trees@, at).id@,
    );
    let mut out: Vec<String> = Vec::new();
    let mut i: usize = 0;
    while i < places.len()
        invariant
            i <= places@.len(),
            target == places@.map_values(|at: (usize, usize)| (at.0 as int, at.1 as int)).map_values(
                |at: (int, int)| list_at(trees@, at).id@,
            ),
            strings_view(out@) == target.take(i as int),
            forall|j: int| 0 <= j < places@.len() ==> {
                let at = #[trigger] places@[j];
                &&& at.0 < trees@.len()
                &&& at.1 < trees@[at.0 as int].lists@.len()
            },
        decreases places@.len() - i,
    {
        let (p, l) = places[i];
        assert(target[i as int] == trees@[p as int].lists@[l as int].id@);
        let ghost prev = out@;
        out.push(trees[p].lists[l].id.clone());
        assert(strings_view(out@) =~= strings_view(prev).push(target[i as int]));
        assert(strings_view(out@) =~= target.take(i + 1));
        i = i + 1;
    }
    assert(target.take(places@.len() as int) =~= target);
    out
}

/// The ids of the lists at `places` that belong to the project `pid`.
fn ids_in(trees: &Vec<ProjectInfo>, places: &Vec<(usize, usize)>, pid: &str) -> (r: Vec<String>)
    requires
        forall|i: int| 0 <= i < places@.len() ==> {
            let at = #[trigger] places@[i];
            &&& at.0 < trees@.len()
            &&& at.1 < trees@[at.0 as int].lists@.len()
        },
    ensures
        strings_view(r@) == ids_in_project(
            trees@,
            places@.map_values(|at: (usize, usize)| (at.0 as int, at.1 as int)),
            pid@,
        ),
{
    let ghost all = places@.map_values(|at: (usize, usize)| (at.0 as int, at.1 as int));
    let mut out: Vec<String> = Vec::new();
    let mut i: usize = 0;
    while i < places.len()
        invariant
            i <= places@.len(),
            all == places@.map_values(|at: (usize, usize)| (at.0 as int, at.1 as int)),
            strings_view(out@) == ids_in_project(trees@, all.take(i as int), pid@),
            forall|j: int| 0 <= j < places@.len() ==> {
                let at = #[trigger] places@[j];
                &&& at.0 < trees@.len()
                &&& at.1 < trees@[at.0 as int].lists@.len()
            },
        decreases places@.len() - i,
    {
        proof {
            assert(all.take(i + 1).drop_last() =~= all.take(i as int));
            assert(all.take(i + 1).last() == (places@[i as int].0 as int, places@[i as int].1 as int));
        }
        let (p, l) = places[i];
        if same_text(trees[p].id.as_str(), pid) {
            let ghost prev = out@;
            out.push(trees[p].lists[l].id.clone());
            assert(strings_view(out@) =~= strings_view(prev).push(out@.last()@));
        }
        i = i + 1;
    }
    assert(all.take(places@.len() as int) =~= all);
    out
}

fn named_ids(refs: &Vec<Reference>, lists: bool) -> (r: Vec<String>)
    ensures
        strings_view(r@) == if lists {
            named_lists(refs_view(refs@))
        } else {
            named_projects(refs_view(refs@))
        },
{
    let ghost all = refs_view(refs@);
    let mut out: Vec<String> = Vec::new();
    let mut i: usize = 0;
    while i < refs.len()
        invariant
            i <= refs@.len(),
            all == refs_view(refs@),
            strings_view(out@) == if lists {
                named_lists(all.take(i as int))
            } else {
                named_projects(all.take(i as int))
            },
        decreases refs@.len() - i,
    {
        proof {
            assert(all.take(i + 1).drop_last() =~= all.take(i as int));
            assert(all.take(i + 1).last() == refs@[i as int]@);
        }
        let ghost prev = out@;
        match &refs[i] {
            Reference::List(id) => if lists {
                out.push(id.clone());
                assert(strings_view(out@) =~= strings_view(prev).push(id@));
            },
            Reference::Project(id) => if !lists {
                out.push(id.clone());
                assert(strings_view(out@) =~= strings_view(prev).push(id@));
            },
            _ => {},
        }
        i = i + 1;
    }
    assert(all.take(refs@.len() as int) =~= all);
    out
}

pub open spec fn opt_text(o: Option<String>) -> Option<Seq<char>> {
    match o {
        Some(s) => Some(s@),
        None => None,
    }
}

/// Where a new task goes by default, given the references the query narrows
/// by with AND and the lists used last, newest first.
pub fn default_add_target(
    strong: &Vec<Reference>,
    trees: &Vec<ProjectInfo>,
    show_archived: bool,
    recent: &Vec<String>,
) -> (r: Option<String>)
    ensures
        opt_text(r) == default_target(refs_view(strong@), trees@, show_archived, strings_view(recent@)),
{
    let places = live_lists(trees, show_archived);
    let live = live_list_ids(trees, &places);
    let lists = named_ids(strong, true);
    let projects = named_ids(strong, false);
    if lists.len() == 1 && contains_id(&live, lists[0].as_str()) {
        return Some(lists[0].clone());
    }
    let in_project = if projects.len() == 1 {
        ids_in(trees, &places, projects[0].as_str())
    } else {
        Vec::new()
    };
    proof {
        if projects@.len() != 1 {
            assert(strings_view(in_project@) =~= Seq::<Seq<char>>::empty());
        }
    }
    match first_among_exec(recent, &in_project) {
        Some(x) => return Some(x),
        None => {},
    }
    if in_project.len() > 0 {
        return Some(in_project[0].clone());
    }
    match first_among_exec(recent, &live) {
        Some(x) => return Some(x),
        None => {},
    }
    if live.len() > 0 {
        Some(live[0].clone())
    } else {
        None
    }
}

/// The first project from `i` on with a list `list_id`, deleted or not.
pub open spec fn project_of_list_from(ps: Seq<ProjectInfo>, list_id: Seq<char>, i: int) -> Option<Seq<char>>
    decreases ps.len() - i,
{
    if i < 0 || i >= ps.len() {
        None
    } else if exists|l: int| 0 <= l < ps[i].lists@.len() && (#[trigger] ps[i].lists@[l]).id@ == list_id {
        Some(ps[i].id@)
    } else {
        project_of_list_from(ps, list_id, i + 1)
    }
}

/// The project that owns the list `list_id`.
pub open spec fn project_of_list(ps: Seq<ProjectInfo>, list_id: Seq<char>) -> Option<Seq<char>> {
    project_of_list_from(ps, list_id, 0)
}

/// Whether a list holds the task `task_id`.
pub open spec fn holds_task(l: ListInfo, task_id: Seq<char>) -> bool {
    exists|t: int| 0 <= t < l.tasks@.len() && (#[trigger] l.tasks@[t]).id@ == task_id
}

/// The first project from `i` on with a list that holds `task_id`.
pub open spec fn project_of_task_from(ps: Seq<ProjectInfo>, task_id: Seq<char>, i: int) -> Option<Seq<char>>
    decreases ps.len() - i,
{
    if i < 0 || i >= ps.len() {
        None
    } else if exists|l: int| 0 <= l < ps[i].lists@.len() && holds_task(#[trigger] ps[i].lists@[l], task_id) {
        Some(ps[i].id@)
    } else {
        project_of_task_from(ps, task_id, i + 1)
    }
}

/// The project that owns the task `task_id`.
pub open spec fn project_of_task(ps: Seq<ProjectInfo>, task_id: Seq<char>) -> Option<Seq<char>> {
    project_of_task_from(ps, task_id, 0)
}

/// The project the first reference that names one points at: a list's
/// project, or a project itself.
pub open spec fn project_from_refs(refs: Seq<ReferenceView>, ps: Seq<ProjectInfo>) -> Option<Seq<char>>
    decreases refs.len(),
{
    if refs.len() == 0 {
        None
    } else {
        let rest = project_from_refs(refs.drop_first(), ps);
        match refs[0] {
            ReferenceView::List(id) => match project_of_list(ps, id) {
                Some(p) => Some(p),
                None => rest,
            },
            ReferenceView::Project(id) => Some(id),
            _ => rest,
        }
    }
}

/// The project the tag manager and "new list" work on: the one the query
/// names, else the selected task's, else the destination's, else none.
pub open spec fn context_of(
    refs: Seq<ReferenceView>,
    ps: Seq<ProjectInfo>,
    selected_task_id: Seq<char>,
    target: Option<Seq<char>>,
) -> Seq<char> {
    match project_from_refs(refs, ps) {
        Some(p) => p,
        None => match project_of_task(ps, selected_task_id) {
            Some(p) => p,
            None => match target {
                Some(t) => match project_of_list(ps, t) {
                    Some(p) => p,
                    None => Seq::empty(),
                },
                None => Seq::empty(),
            },
        },
    }
}

fn project_of_list_exec(trees: &Vec<ProjectInfo>, list_id: &str) -> (r: Option<String>)
    ensures
        opt_text(r) == project_of_list(trees@, list_id@),
{
    let ghost ps = trees@;
    let mut i: usize = 0;
    while i < trees.len()
        invariant
            ps == trees@,
            i <= ps.len(),
            project_of_list_from(ps, list_id@, i as int) == project_of_list(ps, list_id@),
        decreases ps.len() - i,
    {
        let lists = &trees[i].lists;
        let mut l: usize = 0;
        while l < lists.len()
            invariant
                ps == trees@,
                i < ps.len(),
                lists == &ps[i as int].lists,
                l <= lists@.len(),
                project_of_list_from(ps, list_id@, i as int) == project_of_list(ps, list_id@),
                forall|j: int| 0 <= j < l ==> (#[trigger] lists@[j]).id@ != list_id@,
            decreases lists@.len() - l,
        {
            if same_text(lists[l].id.as_str(), list_id) {
                assert(ps[i as int].lists@[l as int].id@ == list_id@);
                return Some(trees[i].id.clone());
            }
            l = l + 1;
        }
        i = i + 1;
    }
    None
}

fn holds_task_exec(l: &ListInfo, task_id: &str) -> (r: bool)
    ensures
        r == holds_task(*l, task_id@),
{
    let mut t: usize = 0;
    while t < l.tasks.len()
        invariant
            t <= l.tasks@.len(),
            forall|j: int| 0 <= j < t ==> (#[trigger] l.tasks@[j]).id@ != task_id@,
        decreases l.tasks@.len() - t,
    {
        if same_text(l.tasks[t].id.as_str(), task_id) {
            assert(l.tasks@[t as int].id@ == task_id@);
            return true;
        }
        t = t + 1;
    }
    false
}

fn project_of_task_exec(trees: &Vec<ProjectInfo>, task_id: &str) -> (r: Option<String>)
    ensures
        opt_text(r) == project_of_task(trees@, task_id@),
{
    let ghost ps = trees@;
    let mut i: usize = 0;
    while i < trees.len()
        invariant
            ps == trees@,
            i <= ps.len(),
            project_of_task_from(ps, task_id@, i as int) == project_of_task(ps, task_id@),
        decreases ps.len() - i,
    {
        let lists = &trees[i].lists;
        let mut l: usize = 0;
        while l < lists.len()
            invariant
                ps == trees@,
                i < ps.len(),
                lists == &ps[i as int].lists,
                l <= lists@.len(),
                project_of_task_from(ps, task_id@, i as int) == project_of_task(ps, task_id@),
                forall|j: int| 0 <= j < l ==> !holds_task(#[trigger] lists@[j], task_id@),
            decreases lists@.len() - l,
        {
            if holds_task_exec(&lists[l], task_id) {
                assert(holds_task(ps[i as int].lists@[l as int], task_id@));
                return Some(trees[i].id.clone());
            }
            l = l + 1;
        }
        i = i + 1;
    }
    None
}

fn project_from_refs_exec(refs: &Vec<Reference>, trees: &Vec<ProjectInfo>) -> (r: Option<String>)
    ensures
        opt_text(r) == project_from_refs(refs_view(refs@), trees@),
{
    let ghost all = refs_view(refs@);
    let mut i: usize = 0;
    assert(all.skip(0) =~= all);
    while i < refs.len()
        invariant
            i <= refs@.len(),
            all == refs_view(refs@),
            project_from_refs(all.skip(i as int), trees@) == project_from_refs(all, trees@),
        decreases refs@.len() - i,
    {
        proof {
            assert(all.skip(i as int).drop_first() =~= all.skip(i + 1));
            assert(all.skip(i as int)[0] == refs@[i as int]@);
        }
        match &refs[i] {
            Reference::List(id) => match project_of_list_exec(trees, id.as_str()) {
                Some(p) => return Some(p),
                None => {},
            },
            Reference::Project(id) => return Some(id.clone()),
            _ => {},
        }
        i = i + 1;
    }
    proof {
        assert(all.skip(i as int).len() == 0);
    }
    None
}

/// Where the quick-add field puts new tasks, and the project the tag manager
/// works on.
#[derive(Debug, Clone, Default, PartialEq, Eq)]
pub struct AddTargetState {
    /// The list new tasks go to.
    pub add_target: Option<String>,
    /// A destination picked by hand, and the default it replaced; kept until
    /// the query changes what the default would be.
    pub add_target_override: Option<(String, Option<String>)>,
    pub context_project_id: String,
    /// The lists tasks were recently added to, newest first.
    pub recent_add_targets: Vec<String>,
}

pub open spec fn override_view(o: Option<(String, Option<String>)>) -> Option<(Seq<char>, Option<Seq<char>>)> {
    match o {
        Some((c, rep)) => Some((c@, opt_text(rep))),
        None => None,
    }
}

/// Whether a hand-picked destination still stands: the default it replaced
/// is still the default, and the list can still take tasks.
pub open spec fn override_stands(
    o: Option<(String, Option<String>)>,
    default: Option<Seq<char>>,
    live: Seq<Seq<char>>,
) -> bool {
    match o {
        Some((chosen, replaced)) => opt_text(replaced) == default && live.contains(chosen@),
        None => false,
    }
}

/// Settles the destination and the project the tag manager works on, for the
/// references the query narrows by with AND and the selected task.
pub fn settle_add_target(
    state: &mut AddTargetState,
    strong: &Vec<Reference>,
    trees: &Vec<ProjectInfo>,
    show_archived: bool,
    selected_task_id: &str,
)
    ensures
        ({
            let default = default_target(
                refs_view(strong@),
                trees@,
                show_archived,
                strings_view(old(state).recent_add_targets@),
            );
            if override_stands(old(state).add_target_override, default, live_ids(trees@, show_archived)) {
                &&& opt_text(final(state).add_target) == Some(old(state).add_target_override.unwrap().0@)
                &&& override_view(final(state).add_target_override) == override_view(old(state).add_target_override)
            } else {
                &&& opt_text(final(state).add_target) == default
                &&& final(state).add_target_override is None
            }
        }),
        final(state).context_project_id@ == context_of(
            refs_view(strong@),
            trees@,
            selected_task_id@,
            opt_text(final(state).add_target),
        ),
        strings_view(final(state).recent_add_targets@) == strings_view(old(state).recent_add_targets@),
{
    let default = default_add_target(strong, trees, show_archived, &state.recent_add_targets);
    let places = live_lists(trees, show_archived);
    let live = live_list_ids(trees, &places);
    let stands = match &state.add_target_override {
        Some((chosen, replaced)) => {
            let same = match (replaced, &default) {
                (Some(a), Some(b)) => same_text(a.as_str(), b.as_str()),
                (None, None) => true,
                _ => false,
            };
            same && contains_id(&live, chosen.as_str())
        },
        None => false,
    };
    if stands {
        match &state.add_target_override {
            Some((chosen, _)) => {
                state.add_target = Some(chosen.clone());
            },
            None => {},
        }
    } else {
        state.add_target = default;
        state.add_target_override = None;
    }
    let from_query = project_from_refs_exec(strong, trees);
    let context = match from_query {
        Some(p) => p,
        None => match project_of_task_exec(trees, selected_task_id) {
            Some(p) => p,
            None => match &state.add_target {
                Some(t) => match project_of_list_exec(trees, t.as_str()) {
                    Some(p) => p,
                    None => String::new(),
                },
                None => String::new(),
            },
        },
    };
    state.context_project_id = context;
}

/// `recent` without `id`.
pub open spec fn without(recent: Seq<Seq<char>>, id: Seq<char>) -> Seq<Seq<char>>
    decreases recent.len(),
{
    if recent.len() == 0 {
        Seq::empty()
    } else if recent.last() == id {
        without(recent.drop_last(), id)
    } else {
        without(recent.drop_last(), id).push(recent.last())
    }
}

/// The recent lists once a task was added to `id`: `id` first, the others
/// after it in their order, at most `keep` of them.
pub open spec fn recent_after(recent: Seq<Seq<char>>, id: Seq<char>, keep: int) -> Seq<Seq<char>> {
    let all = seq![id] + without(recent, id);
    if all.len() <= keep {
        all
    } else {
        all.take(keep)
    }
}

/// Records that a task was added to the list `list_id`, so it leads the
/// destination picker and becomes the fallback destination; at most `keep`
/// lists are remembered.
pub fn note_task_added(recent: &mut Vec<String>, list_id: &str, keep: usize)
    ensures
        strings_view(final(recent)@) == recent_after(strings_view(old(recent)@), list_id@, keep as int),
{
    let ghost old_view = strings_view(recent@);
    let mut out: Vec<String> = Vec::new();
    out.push(list_id.to_owned());
    let mut i: usize = 0;
    while i < recent.len()
        invariant
            i <= recent@.len(),
            old_view == strings_view(recent@),
            strings_view(out@) == seq![list_id@] + without(old_view.take(i as int), list_id@),
        decreases recent@.len() - i,
    {
        proof {
            assert(old_view.take(i + 1).drop_last() =~= old_view.take(i as int));
            assert(old_view.take(i + 1).last() == recent@[i as int]@);
        }
        if !same_text(recent[i].as_str(), list_id) {
            let ghost prev = out@;
            out.push(recent[i].clone());
            assert(strings_view(out@) =~= strings_view(prev).push(recent@[i as int]@));
        }
        i = i + 1;
    }
    assert(old_view.take(recent@.len() as int) =~= old_view);
    if out.len() > keep {
        out.truncate(keep);
        assert(strings_view(out@) =~= (seq![list_id@] + without(old_view, list_id@)).take(keep as int));
    }
    *recent = out;
}

/// A row of the destination picker.
#[derive(Debug, Clone, PartialEq, Eq)]
pub struct AddTargetItem {
    pub list_id: String,
    pub project_name: String,
    pub list_name: String,
    /// The project's colour; all channels zero when it has none.
    pub color_brush: Rgb,
    pub has_color: bool,
    /// Whether the list is one of the recent destinations.
    pub recent: bool,
}

pub open spec fn item_view(i: AddTargetItem) -> (Seq<char>, Seq<char>, Seq<char>, Rgb, bool, bool) {
    (i.list_id@, i.project_name@, i.list_name@, i.color_brush, i.has_color, i.recent)
}

/// The picker row of the list at `at`.
pub open spec fn row_of(ps: Seq<ProjectInfo>, at: (int, int), recent: bool) -> (Seq<char>, Seq<char>, Seq<char>, Rgb, bool, bool) {
    (
        list_at(ps, at).id@,
        ps[at.0].name@,
        list_at(ps, at).name@,
        brush_of(stored_color(ps[at.0].color)),
        stored_color(ps[at.0].color) is Some,
        recent,
    )
}

/// Whether the picker's filter lets the list at `at` through: an empty
/// filter lets everything through, else the folded list or project name has
/// to contain it.
pub open spec fn lets_through(ps: Seq<ProjectInfo>, at: (int, int), needle: Seq<char>) -> bool {
    needle.len() == 0 || has_substring(folded(list_at(ps, at).name@), needle) || has_substring(
        folded(ps[at.0].name@),
        needle,
    )
}

/// The first of `places` whose list has the id `id`.
pub open spec fn place_of(ps: Seq<ProjectInfo>, places: Seq<(int, int)>, id: Seq<char>) -> Option<(int, int)>
    decreases places.len(),
{
    if places.len() == 0 {
        None
    } else if list_at(ps, places[0]).id@ == id {
        Some(places[0])
    } else {
        place_of(ps, places.drop_first(), id)
    }
}

/// The rows of the recent destinations that can still take tasks, newest
/// first.
pub open spec fn recent_rows(
    ps: Seq<ProjectInfo>,
    places: Seq<(int, int)>,
    recent: Seq<Seq<char>>,
    needle: Seq<char>,
) -> Seq<(Seq<char>, Seq<char>, Seq<char>, Rgb, bool, bool)>
    decreases recent.len(),
{
    if recent.len() == 0 {
        Seq::empty()
    } else {
        let rest = recent_rows(ps, places, recent.drop_last(), needle);
        match place_of(ps, places, recent.last()) {
            Some(at) => if lets_through(ps, at, needle) {
                rest.push(row_of(ps, at, true))
            } else {
                rest
            },
            None => rest,
        }
    }
}

/// The rows of the other lists that can take tasks, in order.
pub open spec fn other_rows(
    ps: Seq<ProjectInfo>,
    places: Seq<(int, int)>,
    recent: Seq<Seq<char>>,
    needle: Seq<char>,
) -> Seq<(Seq<char>, Seq<char>, Seq<char>, Rgb, bool, bool)>
    decreases places.len(),
{
    if places.len() == 0 {
        Seq::empty()
    } else {
        let rest = other_rows(ps, places.drop_last(), recent, needle);
        let at = places.last();
        if !recent.contains(list_at(ps, at).id@) && lets_through(ps, at, needle) {
            rest.push(row_of(ps, at, false))
        } else {
            rest
        }
    }
}

fn row(trees: &Vec<ProjectInfo>, at: (usize, usize), recent: bool) -> (r: AddTargetItem)
    requires
        at.0 < trees@.len(),
        at.1 < trees@[at.0 as int].lists@.len(),
    ensures
        item_view(r) == row_of(trees@, (at.0 as int, at.1 as int), recent),
{
    let tree = &trees[at.0];
    let list = &tree.lists[at.1];
    let color = parse_stored_color(&tree.color);
    AddTargetItem {
        list_id: list.id.clone(),
        project_name: tree.name.clone(),
        list_name: list.name.clone(),
        color_brush: match color {
            Some(x) => x,
            None => Rgb { red: 0, green: 0, blue: 0 },
        },
        has_color: color.is_some(),
        recent,
    }
}

fn lets_through_exec(trees: &Vec<ProjectInfo>, at: (usize, usize), needle: &String) -> (r: bool)
    requires
        at.0 < trees@.len(),
        at.1 < trees@[at.0 as int].lists@.len(),
    ensures
        r == lets_through(trees@, (at.0 as int, at.1 as int), needle@),
{
    if needle.as_str().unicode_len() == 0 {
        return true;
    }
    let tree = &trees[at.0];
    let list_name = fold(tree.lists[at.1].name.as_str());
    if contains_text(list_name.as_str(), needle.as_str()) {
        return true;
    }
    let project_name = fold(tree.name.as_str());
    contains_text(project_name.as_str(), needle.as_str())
}

pub open spec fn int_places(v: Seq<(usize, usize)>) -> Seq<(int, int)> {
    v.map_values(|at: (usize, usize)| (at.0 as int, at.1 as int))
}

fn place_of_exec(trees: &Vec<ProjectInfo>, places: &Vec<(usize, usize)>, id: &str) -> (r: Option<(usize, usize)>)
    requires
        forall|i: int| 0 <= i < places@.len() ==> {
            let at = #[trigger] places@[i];
            &&& at.0 < trees@.len()
            &&& at.1 < trees@[at.0 as int].lists@.len()
        },
    ensures
        match r {
            Some(at) => place_of(trees@, int_places(places@), id@) == Some((at.0 as int, at.1 as int)) && at.0
                < trees@.len() && at.1 < trees@[at.0 as int].lists@.len(),
            None => place_of(trees@, int_places(places@), id@) is None,
        },
{
    let ghost all = int_places(places@);
    let mut i: usize = 0;
    assert(all.skip(0) =~= all);
    while i < places.len()
        invariant
            i <= places@.len(),
            all == int_places(places@),
            place_of(trees@, all.skip(i as int), id@) == place_of(trees@, all, id@),
            forall|j: int| 0 <= j < places@.len() ==> {
                let at = #[trigger] places@[j];
                &&& at.0 < trees@.len()
                &&& at.1 < trees@[at.0 as int].lists@.len()
            },
        decreases places@.len() - i,
    {
        proof {
            assert(all.skip(i as int).drop_first() =~= all.skip(i + 1));
            assert(all.skip(i as int)[0] == (places@[i as int].0 as int, places@[i as int].1 as int));
        }
        let (p, l) = places[i];
        if same_text(trees[p].lists[l].id.as_str(), id) {
            return Some((p, l));
        }
        i = i + 1;
    }
    proof {
        assert(all.skip(i as int).len() == 0);
    }
    None
}

/// The rows of the destination picker: the recent destinations that can
/// still take tasks, newest first, then every other list that can, in order,
/// each only when the filter lets it through.
pub fn add_target_items(trees: &Vec<ProjectInfo>, show_archived: bool, recent: &Vec<String>, filter: &str) -> (r: Vec<
    AddTargetItem,
>)
    requires
    ensures
        r@.map_values(|i: AddTargetItem| item_view(i)) == recent_rows(
            trees@,
            live_places(trees@, show_archived),
            strings_view(recent@),
            folded(filter@),
        ) + other_rows(trees@, live_places(trees@, show_archived), strings_view(recent@), folded(filter@)),
{
    let needle = fold(filter);
    let places = live_lists(trees, show_archived);
    let ghost pl = int_places(places@);
    let ghost rv = strings_view(recent@);
    let mut out: Vec<AddTargetItem> = Vec::new();
    let mut i: usize = 0;
    while i < recent.len()
        invariant
            i <= recent@.len(),
            pl == int_places(places@),
            pl == live_places(trees@, show_archived),
            rv == strings_view(recent@),
            forall|j: int| 0 <= j < places@.len() ==> {
                let at = #[trigger] places@[j];
                &&& at.0 < trees@.len()
                &&& at.1 < trees@[at.0 as int].lists@.len()
            },
            out@.map_values(|i: AddTargetItem| item_view(i)) == recent_rows(trees@, pl, rv.take(i as int), needle@),
        decreases recent@.len() - i,
    {
        proof {
            assert(rv.take(i + 1).drop_last() =~= rv.take(i as int));
            assert(rv.take(i + 1).last() == recent@[i as int]@);
        }
        match place_of_exec(trees, &places, recent[i].as_str()) {
            Some(at) => if lets_through_exec(trees, at, &needle) {
                let ghost prev = out@;
                out.push(row(trees, at, true));
                assert(out@.map_values(|i: AddTargetItem| item_view(i)) =~= prev.map_values(
                    |i: AddTargetItem| item_view(i),
                ).push(item_view(out@.last())));
            },
            None => {},
        }
        i = i + 1;
    }
    assert(rv.take(recent@.len() as int) =~= rv);
    let ghost first = out@.map_values(|i: AddTargetItem| item_view(i));
    let mut k: usize = 0;
    while k < places.len()
        invariant
            k <= places@.len(),
            pl == int_places(places@),
            rv == strings_view(recent@),
            forall|j: int| 0 <= j < places@.len() ==> {
                let at = #[trigger] places@[j];
                &&& at.0 < trees@.len()
                &&& at.1 < trees@[at.0 as int].lists@.len()
            },
            out@.map_values(|i: AddTargetItem| item_view(i)) == first + other_rows(trees@, pl.take(k as int), rv, needle@),
        decreases places@.len() - k,
    {
        proof {
            assert(pl.take(k + 1).drop_last() =~= pl.take(k as int));
            assert(pl.take(k + 1).last() == (places@[k as int].0 as int, places@[k as int].1 as int));
        }
        let at = places[k];
        if !contains_id(recent, trees[at.0].lists[at.1].id.as_str()) && lets_through_exec(trees, at, &needle) {
            let ghost prev = out@;
            out.push(row(trees, at, false));
            assert(out@.map_values(|i: AddTargetItem| item_view(i)) =~= prev.map_values(
                |i: AddTargetItem| item_view(i),
            ).push(item_view(out@.last())));
        }
        k = k + 1;
    }
    assert(pl.take(places@.len() as int) =~= pl);
    out
}

/// Whether a task is listed at all: neither deleted nor archived.
pub open spec fn task_live(t: TaskInfo) -> bool {
    !t.deleted && !t.is_archived
}

/// The places of the live tasks among the first `n` tasks of the list at `at`.
pub open spec fn tasks_live_in(ps: Seq<ProjectInfo>, at: (int, int), n: int) -> Seq<(int, int, int)>
    decreases n,
{
    if n <= 0 {
        Seq::empty()
    } else if task_live(list_at(ps, at).tasks@[n - 1]) {
        tasks_live_in(ps, at, n - 1).push((at.0, at.1, n - 1))
    } else {
        tasks_live_in(ps, at, n - 1)
    }
}

/// The places of the live tasks of the lists at `places`, in order.
pub open spec fn tasks_at(ps: Seq<ProjectInfo>, places: Seq<(int, int)>) -> Seq<(int, int, int)>
    decreases places.len(),
{
    if places.len() == 0 {
        Seq::empty()
    } else {
        tasks_at(ps, places.drop_last()) + tasks_live_in(
            ps,
            places.last(),
            list_at(ps, places.last()).tasks@.len() as int,
        )
    }
}

/// Every task the query can list: the live tasks of the lists that can take
/// tasks, with their project and list, in order.
pub fn live_tasks(trees: &Vec<ProjectInfo>, show_archived: bool) -> (r: Vec<(usize, usize, usize)>)
    ensures
        r@.map_values(|at: (usize, usize, usize)| (at.0 as int, at.1 as int, at.2 as int)) == tasks_at(
            trees@,
            live_places(trees@, show_archived),
        ),
{
    let places = live_lists(trees, show_archived);
    let ghost pl = int_places(places@);
    let mut out: Vec<(usize, usize, usize)> = Vec::new();
    let mut i: usize = 0;
    while i < places.len()
        invariant
            i <= places@.len(),
            pl == int_places(places@),
            forall|j: int| 0 <= j < places@.len() ==> {
                let at = #[trigger] places@[j];
                &&& at.0 < trees@.len()
                &&& at.1 < trees@[at.0 as int].lists@.len()
            },
            out@.map_values(|at: (usize, usize, usize)| (at.0 as int, at.1 as int, at.2 as int)) == tasks_at(
                trees@,
                pl.take(i as int),
            ),
        decreases places@.len() - i,
    {
        proof {
            assert(pl.take(i + 1).drop_last() =~= pl.take(i as int));
            assert(pl.take(i + 1).last() == (places@[i as int].0 as int, places@[i as int].1 as int));
        }
        let (p, l) = places[i];
        let tasks = &trees[p].lists[l].tasks;
        let ghost before = out@.map_values(|at: (usize, usize, usize)| (at.0 as int, at.1 as int, at.2 as int));
        let mut t: usize = 0;
        while t < tasks.len()
            invariant
                t <= tasks@.len(),
                p < trees@.len(),
                l < trees@[p as int].lists@.len(),
                tasks == &trees@[p as int].lists@[l as int].tasks,
                out@.map_values(|at: (usize, usize, usize)| (at.0 as int, at.1 as int, at.2 as int)) == before
                    + tasks_live_in(trees@, (p as int, l as int), t as int),
            decreases tasks@.len() - t,
        {
            if !tasks[t].deleted && !tasks[t].is_archived {
                let ghost prev = out@;
                out.push((p, l, t));
                assert(out@.map_values(|at: (usize, usize, usize)| (at.0 as int, at.1 as int, at.2 as int))
                    =~= prev.map_values(|at: (usize, usize, usize)| (at.0 as int, at.1 as int, at.2 as int)).push(
                    (p as int, l as int, t as int),
                ));
            }
            t = t + 1;
        }
        i = i + 1;
    }
    assert(pl.take(places@.len() as int) =~= pl);
    out
}

pub open spec fn pairs_view(v: Seq<(String, String)>) -> Seq<(Seq<char>, Seq<char>)> {
    v.map_values(|p: (String, String)| (p.0@, p.1@))
}

/// The name the first entry for `id` gives.
pub open spec fn name_for(names: Seq<(Seq<char>, Seq<char>)>, id: Seq<char>) -> Option<Seq<char>>
    decreases names.len(),
{
    if names.len() == 0 {
        None
    } else if names[0].0 == id {
        Some(names[0].1)
    } else {
        name_for(names.drop_first(), id)
    }
}

/// The names of the tags `ids`, in order, without the ids no entry names.
pub open spec fn named_tags(names: Seq<(Seq<char>, Seq<char>)>, ids: Seq<Seq<char>>) -> Seq<Seq<char>>
    decreases ids.len(),
{
    if ids.len() == 0 {
        Seq::empty()
    } else {
        match name_for(names, ids.last()) {
            Some(n) => named_tags(names, ids.drop_last()).push(n),
            None => named_tags(names, ids.drop_last()),
        }
    }
}

fn name_for_exec(names: &Vec<(String, String)>, id: &str) -> (r: Option<String>)
    ensures
        opt_text(r) == name_for(pairs_view(names@), id@),
{
    let ghost all = pairs_view(names@);
    let mut i: usize = 0;
    assert(all.skip(0) =~= all);
    while i < names.len()
        invariant
            i <= names@.len(),
            all == pairs_view(names@),
            name_for(all.skip(i as int), id@) == name_for(all, id@),
        decreases names@.len() - i,
    {
        proof {
            assert(all.skip(i as int).drop_first() =~= all.skip(i + 1));
            assert(all.skip(i as int)[0] == (names@[i as int].0@, names@[i as int].1@));
        }
        if same_text(names[i].0.as_str(), id) {
            return Some(names[i].1.clone());
        }
        i = i + 1;
    }
    proof {
        assert(all.skip(i as int).len() == 0);
    }
    None
}

/// The names of a task's tags, dropping ids the cache does not know: the
/// cache is filled by the same load as the rows, so a missing name means the
/// id is stale.
pub fn tag_names_of(names: &Vec<(String, String)>, tag_ids: &Vec<String>) -> (r: Vec<String>)
    ensures
        strings_view(r@) == named_tags(pairs_view(names@), strings_view(tag_ids@)),
{
    let ghost ids = strings_view(tag_ids@);
    let mut out: Vec<String> = Vec::new();
    let mut i: usize = 0;
    while i < tag_ids.len()
        invariant
            i <= tag_ids@.len(),
            ids == strings_view(tag_ids@),
            strings_view(out@) == named_tags(pairs_view(names@), ids.take(i as int)),
        decreases tag_ids@.len() - i,
    {
        proof {
            assert(ids.take(i + 1).drop_last() =~= ids.take(i as int));
            assert(ids.take(i + 1).last() == tag_ids@[i as int]@);
        }
        match name_for_exec(names, tag_ids[i].as_str()) {
            Some(n) => {
                let ghost prev = out@;
                out.push(n);
                assert(strings_view(out@) =~= strings_view(prev).push(out@.last()@));
            },
            None => {},
        }
        i = i + 1;
    }
    assert(ids.take(tag_ids@.len() as int) =~= ids);
    out
}

/// The first entry from `i` on for the project `project_id`.
pub open spec fn project_entry(
    tags: Seq<(String, Vec<crate::adapters::tag::Tag>)>,
    project_id: Seq<char>,
    i: int,
) -> Option<int>
    decreases tags.len() - i,
{
    if i < 0 || i >= tags.len() {
        None
    } else if tags[i].0@ == project_id {
        Some(i)
    } else {
        project_entry(tags, project_id, i + 1)
    }
}

/// The first tag from `j` on with the id `tag_id` that is not deleted.
pub open spec fn live_tag(tags: Seq<crate::adapters::tag::Tag>, tag_id: Seq<char>, j: int) -> Option<int>
    decreases tags.len() - j,
{
    if j < 0 || j >= tags.len() {
        None
    } else if tags[j].id@ == tag_id && !tags[j].deleted {
        Some(j)
    } else {
        live_tag(tags, tag_id, j + 1)
    }
}

/// Where the live tag `tag_id` of the project `project_id` is kept.
pub open spec fn tag_place(
    tags: Seq<(String, Vec<crate::adapters::tag::Tag>)>,
    project_id: Seq<char>,
    tag_id: Seq<char>,
) -> Option<(int, int)> {
    match project_entry(tags, project_id, 0) {
        Some(i) => match live_tag(tags[i].1@, tag_id, 0) {
            Some(j) => Some((i, j)),
            None => None,
        },
        None => None,
    }
}

proof fn lemma_project_entry(tags: Seq<(String, Vec<crate::adapters::tag::Tag>)>, project_id: Seq<char>, i: int)
    requires
        0 <= i,
    ensures
        project_entry(tags, project_id, i) matches Some(k) ==> i <= k < tags.len(),
    decreases tags.len() - i,
{
    if i < tags.len() && tags[i].0@ != project_id {
        lemma_project_entry(tags, project_id, i + 1);
    }
}

proof fn lemma_live_tag(tags: Seq<crate::adapters::tag::Tag>, tag_id: Seq<char>, j: int)
    requires
        0 <= j,
    ensures
        live_tag(tags, tag_id, j) matches Some(k) ==> j <= k < tags.len(),
    decreases tags.len() - j,
{
    if j < tags.len() && !(tags[j].id@ == tag_id && !tags[j].deleted) {
        lemma_live_tag(tags, tag_id, j + 1);
    }
}

/// The live tag `tag_id` of the project `project_id`, if the cache holds
/// one: a tag id from the interface is checked against the project it
/// claims to belong to before it is written.
pub fn tag_in_project<'a>(
    tags_by_project: &'a Vec<(String, Vec<crate::adapters::tag::Tag>)>,
    project_id: &str,
    tag_id: &str,
) -> (r: Option<&'a crate::adapters::tag::Tag>)
    ensures
        match tag_place(tags_by_project@, project_id@, tag_id@) {
            Some((i, j)) => r == Some(&tags_by_project@[i].1@[j]),
            None => r is None,
        },
{
    let ghost all = tags_by_project@;
    let mut i: usize = 0;
    while i < tags_by_project.len()
        invariant
            i <= all.len(),
            all == tags_by_project@,
            project_entry(all, project_id@, i as int) == project_entry(all, project_id@, 0),
        decreases all.len() - i,
    {
        if same_text(tags_by_project[i].0.as_str(), project_id) {
            let tags = &tags_by_project[i].1;
            let mut j: usize = 0;
            while j < tags.len()
                invariant
                    j <= tags@.len(),
                    i < all.len(),
                    all == tags_by_project@,
                    tags == &all[i as int].1,
                    project_entry(all, project_id@, 0) == Some(i as int),
                    live_tag(tags@, tag_id@, j as int) == live_tag(tags@, tag_id@, 0),
                decreases tags@.len() - j,
            {
                if same_text(tags[j].id.as_str(), tag_id) && !tags[j].deleted {
                    assert(live_tag(tags@, tag_id@, j as int) == Some(j as int));
                    assert(tag_place(all, project_id@, tag_id@) == Some((i as int, j as int)));
                    assert(tags_by_project@[i as int].1@[j as int] == tags@[j as int]);
                    return Some(&tags[j]);
                }
                j = j + 1;
            }
            return None;
        }
        i = i + 1;
    }
    None
}

pub open spec fn task_reminders(t: TaskInfo) -> Seq<(Seq<char>, Seq<char>, i128)> {
    t.reminders@.map_values(|at: i128| (t.id@, t.title@, at))
}

pub open spec fn reminders_of_tasks(ts: Seq<TaskInfo>) -> Seq<(Seq<char>, Seq<char>, i128)>
    decreases ts.len(),
{
    if ts.len() == 0 {
        Seq::empty()
    } else if ts.last().deleted {
        reminders_of_tasks(ts.drop_last())
    } else {
        reminders_of_tasks(ts.drop_last()) + task_reminders(ts.last())
    }
}

pub open spec fn reminders_of_lists(ls: Seq<ListInfo>) -> Seq<(Seq<char>, Seq<char>, i128)>
    decreases ls.len(),
{
    if ls.len() == 0 {
        Seq::empty()
    } else if ls.last().deleted {
        reminders_of_lists(ls.drop_last())
    } else {
        reminders_of_lists(ls.drop_last()) + reminders_of_tasks(ls.last().tasks@)
    }
}

/// Every reminder of a task that still exists: its task's id and title and
/// its instant, in order. Archived rows keep their reminders.
pub open spec fn reminders_of(ps: Seq<ProjectInfo>) -> Seq<(Seq<char>, Seq<char>, i128)>
    decreases ps.len(),
{
    if ps.len() == 0 {
        Seq::empty()
    } else if ps.last().deleted {
        reminders_of(ps.drop_last())
    } else {
        reminders_of(ps.drop_last()) + reminders_of_lists(ps.last().lists@)
    }
}

pub open spec fn reminder_view(r: (String, String, i128)) -> (Seq<char>, Seq<char>, i128) {
    (r.0@, r.1@, r.2)
}

fn push_task_reminders(out: &mut Vec<(String, String, i128)>, t: &TaskInfo)
    ensures
        final(out)@.map_values(|r: (String, String, i128)| reminder_view(r)) == old(out)@.map_values(
            |r: (String, String, i128)| reminder_view(r),
        ) + task_reminders(*t),
{
    let ghost start = out@.map_values(|r: (String, String, i128)| reminder_view(r));
    let mut k: usize = 0;
    while k < t.reminders.len()
        invariant
            k <= t.reminders@.len(),
            out@.map_values(|r: (String, String, i128)| reminder_view(r)) == start + task_reminders(*t).take(k as int),
        decreases t.reminders@.len() - k,
    {
        let ghost prev = out@;
        out.push((t.id.clone(), t.title.clone(), t.reminders[k]));
        assert(out@.map_values(|r: (String, String, i128)| reminder_view(r)) =~= prev.map_values(
            |r: (String, String, i128)| reminder_view(r),
        ).push((t.id@, t.title@, t.reminders@[k as int])));
        assert(out@.map_values(|r: (String, String, i128)| reminder_view(r)) =~= start + task_reminders(*t).take(
            k + 1,
        )) by {
            assert(task_reminders(*t).take(k + 1) =~= task_reminders(*t).take(k as int).push(
                (t.id@, t.title@, t.reminders@[k as int]),
            ));
        }
        k = k + 1;
    }
    assert(task_reminders(*t).take(t.reminders@.len() as int) =~= task_reminders(*t));
}

/// Every reminder of a task that still exists, with its task's id and title:
/// rows deleted at any level are left out.
pub fn reminder_specs_from_trees(trees: &Vec<ProjectInfo>) -> (r: Vec<(String, String, i128)>)
    ensures
        r@.map_values(|r: (String, String, i128)| reminder_view(r)) == reminders_of(trees@),
{
    let ghost ps = trees@;
    let mut out: Vec<(String, String, i128)> = Vec::new();
    let mut p: usize = 0;
    while p < trees.len()
        invariant
            ps == trees@,
            p <= ps.len(),
            out@.map_values(|r: (String, String, i128)| reminder_view(r)) == reminders_of(ps.take(p as int)),
        decreases ps.len() - p,
    {
        proof {
            assert(ps.take(p + 1).drop_last() =~= ps.take(p as int));
        }
        let tree = &trees[p];
        if !tree.deleted {
            let ghost before = out@.map_values(|r: (String, String, i128)| reminder_view(r));
            let mut l: usize = 0;
            while l < tree.lists.len()
                invariant
                    ps == trees@,
                    p < ps.len(),
                    tree == &ps[p as int],
                    l <= tree.lists@.len(),
                    out@.map_values(|r: (String, String, i128)| reminder_view(r)) == before + reminders_of_lists(
                        tree.lists@.take(l as int),
                    ),
                decreases tree.lists@.len() - l,
            {
                proof {
                    assert(tree.lists@.take(l + 1).drop_last() =~= tree.lists@.take(l as int));
                }
                let list = &tree.lists[l];
                if !list.deleted {
                    let ghost before_list = out@.map_values(|r: (String, String, i128)| reminder_view(r));
                    let mut t: usize = 0;
                    while t < list.tasks.len()
                        invariant
                            t <= list.tasks@.len(),
                            out@.map_values(|r: (String, String, i128)| reminder_view(r)) == before_list
                                + reminders_of_tasks(list.tasks@.take(t as int)),
                        decreases list.tasks@.len() - t,
                    {
                        proof {
                            assert(list.tasks@.take(t + 1).drop_last() =~= list.tasks@.take(t as int));
                        }
                        if !list.tasks[t].deleted {
                            push_task_reminders(&mut out, &list.tasks[t]);
                        }
                        t = t + 1;
                    }
                    proof {
                        assert(list.tasks@.take(list.tasks@.len() as int) =~= list.tasks@);
                    }
                }
                l = l + 1;
            }
            proof {
                assert(tree.lists@.take(tree.lists@.len() as int) =~= tree.lists@);
            }
        }
        p = p + 1;
    }
    proof {
        assert(ps.take(ps.len() as int) =~= ps);
    }
    out
}

proof fn lemma_first_among(recent: Seq<Seq<char>>, pool: Seq<Seq<char>>)
    ensures
        first_among(recent, pool) matches Some(x) ==> pool.contains(x) && recent.contains(x),
    decreases recent.len(),
{
    if recent.len() > 0 && !pool.contains(recent[0]) {
        lemma_first_among(recent.drop_first(), pool);
        if let Some(x) = first_among(recent.drop_first(), pool) {
            let k = choose|k: int| 0 <= k < recent.drop_first().len() && recent.drop_first()[k] == x;
            assert(recent[k + 1] == x);
        }
    } else if recent.len() > 0 {
        assert(recent[0] == recent[0]);
    }
}

proof fn lemma_ids_in_project(ps: Seq<ProjectInfo>, places: Seq<(int, int)>, pid: Seq<char>)
    ensures
        forall|i: int| 0 <= i < ids_in_project(ps, places, pid).len() ==> places.map_values(
            |at: (int, int)| list_at(ps, at).id@,
        ).contains(#[trigger] ids_in_project(ps, places, pid)[i]),
    decreases places.len(),
{
    if places.len() > 0 {
        lemma_ids_in_project(ps, places.drop_last(), pid);
        let all = places.map_values(|at: (int, int)| list_at(ps, at).id@);
        let front = places.drop_last().map_values(|at: (int, int)| list_at(ps, at).id@);
        let got = ids_in_project(ps, places, pid);
        assert forall|i: int| 0 <= i < got.len() implies all.contains(#[trigger] got[i]) by {
            let before = ids_in_project(ps, places.drop_last(), pid);
            if i < before.len() {
                assert(got[i] == before[i]);
                let k = choose|k: int| 0 <= k < front.len() && front[k] == got[i];
                assert(all[k] == front[k]);
            } else {
                assert(all[places.len() - 1] == got[i]);
            }
        }
    }
}

/// The default destination, when there is one, is always a list that can
/// take tasks: one the query names, one of the project it names, one used
/// recently, or the first there is, but never a deleted or archived list.
pub proof fn law_the_default_destination_takes_tasks(
    refs: Seq<ReferenceView>,
    ps: Seq<ProjectInfo>,
    show_archived: bool,
    recent: Seq<Seq<char>>,
)
    ensures
        default_target(refs, ps, show_archived, recent) matches Some(x) ==> live_ids(ps, show_archived).contains(x),
{
    let live = live_ids(ps, show_archived);
    let projects = named_projects(refs);
    lemma_first_among(recent, live);
    if projects.len() == 1 {
        let in_project = ids_in_project(ps, live_places(ps, show_archived), projects[0]);
        lemma_first_among(recent, in_project);
        lemma_ids_in_project(ps, live_places(ps, show_archived), projects[0]);
        if let Some(x) = first_among(recent, in_project) {
            let k = choose|k: int| 0 <= k < in_project.len() && in_project[k] == x;
            assert(live.contains(in_project[k]));
        } else if in_project.len() > 0 {
            assert(live.contains(in_project[0]));
        }
    } else {
        lemma_first_among(recent, Seq::<Seq<char>>::empty());
    }
    if live.len() > 0 {
        assert(live[0] == live[0]);
    }
}

proof fn lemma_without(recent: Seq<Seq<char>>, id: Seq<char>)
    ensures
        forall|i: int| 0 <= i < without(recent, id).len() ==> #[trigger] without(recent, id)[i] != id,
        without(recent, id).len() <= recent.len(),
    decreases recent.len(),
{
    if recent.len() > 0 {
        lemma_without(recent.drop_last(), id);
        let before = without(recent.drop_last(), id);
        assert forall|i: int| 0 <= i < without(recent, id).len() implies #[trigger] without(recent, id)[i] != id by {
            if i < before.len() {
                assert(without(recent, id)[i] == before[i]);
            }
        }
    }
}

/// The list a task was just added to leads the recent lists, and appears
/// there only once; no more than `keep` lists are remembered.
pub proof fn law_the_last_destination_leads(recent: Seq<Seq<char>>, id: Seq<char>, keep: int)
    requires
        keep > 0,
    ensures
        recent_after(recent, id, keep)[0] == id,
        recent_after(recent, id, keep).len() <= keep,
        forall|i: int| 0 < i < recent_after(recent, id, keep).len() ==> #[trigger] recent_after(recent, id, keep)[i] != id,
{
    lemma_without(recent, id);
    let all = seq![id] + without(recent, id);
    assert forall|i: int| 0 < i < recent_after(recent, id, keep).len() implies #[trigger] recent_after(recent, id, keep)[i] != id by {
        assert(all[i] == without(recent, id)[i - 1]);
    }
}

/// A stored state as the search sees it.
pub open spec fn unit_status_of(status: TaskStatus) -> UnitStatus {
    match status {
        TaskStatus::NotStarted => UnitStatus::NotStarted,
        TaskStatus::InProgress => UnitStatus::InProgress,
        TaskStatus::Waiting => UnitStatus::Waiting,
        TaskStatus::Completed => UnitStatus::Completed,
        TaskStatus::Cancelled => UnitStatus::Cancelled,
    }
}

/// A stored state as the search sees it.
pub fn unit_status(status: &TaskStatus) -> (r: UnitStatus)
    ensures
        r == unit_status_of(*status),
{
    match status {
        TaskStatus::NotStarted => UnitStatus::NotStarted,
        TaskStatus::InProgress => UnitStatus::InProgress,
        TaskStatus::Waiting => UnitStatus::Waiting,
        TaskStatus::Completed => UnitStatus::Completed,
        TaskStatus::Cancelled => UnitStatus::Cancelled,
    }
}

/// A subtask's state as the search sees it: the older `completed` flag,
/// which some clients still write, marks it finished whatever its status.
pub fn subtask_status(status: &TaskStatus, completed: bool) -> (r: UnitStatus)
    ensures
        r == if completed {
            UnitStatus::Completed
        } else {
            unit_status_of(*status)
        },
{
    if completed {
        UnitStatus::Completed
    } else {
        unit_status(status)
    }
}

/// The ids of the subtasks whose units the query matches, in order.
pub open spec fn matching_subtasks(
    tree: Option<crate::search::eval::NodeView>,
    subtasks: Seq<(String, SearchUnit)>,
    now: i128,
    hs: Seq<(crate::search::due::DueKeyword, Option<i128>)>,
) -> Seq<Seq<char>>
    decreases subtasks.len(),
{
    if subtasks.len() == 0 {
        Seq::empty()
    } else {
        let rest = matching_subtasks(tree, subtasks.drop_last(), now, hs);
        if matches_unit(tree, subtasks.last().1, now, hs) {
            rest.push(subtasks.last().0@)
        } else {
            rest
        }
    }
}

/// Whether a task matches the query, and which of its subtasks do, given the
/// search unit of the task and those of its live subtasks with their ids.
pub fn evaluate_units(
    query: &Prepared,
    context: &EvalContext,
    task: &SearchUnit,
    subtasks: &Vec<(String, SearchUnit)>,
) -> (r: (bool, Vec<String>))
    ensures
        r.0 == matches_unit(query.tree(), *task, context.now, context.horizons@),
        strings_view(r.1@) == matching_subtasks(query.tree(), subtasks@, context.now, context.horizons@),
{
    let matched_task = query.matches(task, context);
    let mut ids: Vec<String> = Vec::new();
    let mut i: usize = 0;
    while i < subtasks.len()
        invariant
            i <= subtasks@.len(),
            strings_view(ids@) == matching_subtasks(
                query.tree(),
                subtasks@.take(i as int),
                context.now,
                context.horizons@,
            ),
        decreases subtasks@.len() - i,
    {
        proof {
            assert(subtasks@.take(i + 1).drop_last() =~= subtasks@.take(i as int));
        }
        if query.matches(&subtasks[i].1, context) {
            let ghost prev = ids@;
            ids.push(subtasks[i].0.clone());
            assert(strings_view(ids@) =~= strings_view(prev).push(subtasks@[i as int].0@));
        }
        i = i + 1;
    }
    assert(subtasks@.take(subtasks@.len() as int) =~= subtasks@);
    (matched_task, ids)
}

/// How a listed task row is shown.
#[derive(Debug, Clone, Copy, PartialEq, Eq, Structural)]
pub struct RowListing {
    /// Listed only for its subtasks: shown receded.
    pub dimmed: bool,
    pub expanded: bool,
    /// How many of its subtasks the query matches, when dimmed.
    pub matched_subtask_count: i32,
}

/// Whether and how a task row is listed: when the task matches, when one of
/// its subtasks does, or when it was just added (so a new task does not
/// vanish). A row listed only for its subtasks while a query is active is
/// dimmed and opened up.
pub fn row_listing(task_matches: bool, matched: usize, just_added: bool, filtering: bool, expanded: bool) -> (r:
    Option<RowListing>)
    ensures
        match r {
            None => !task_matches && matched == 0 && !just_added,
            Some(l) => {
                &&& task_matches || matched > 0 || just_added
                &&& l.dimmed == (filtering && !task_matches && !just_added)
                &&& l.expanded == (expanded || l.dimmed)
                &&& l.matched_subtask_count == if l.dimmed {
                    if matched > i32::MAX { i32::MAX as int } else { matched as int }
                } else {
                    0
                }
            },
        },
{
    if !task_matches && matched == 0 && !just_added {
        return None;
    }
    let dimmed = filtering && !task_matches && !just_added;
    let count: i32 = if !dimmed {
        0
    } else if matched > i32::MAX as usize {
        i32::MAX
    } else {
        matched as i32
    };
    Some(RowListing { dimmed, expanded: expanded || dimmed, matched_subtask_count: count })
}

/// Whether a row is listed for a query: the task or one of its subtasks
/// matches.
pub open spec fn row_listed(
    tree: Option<crate::search::eval::NodeView>,
    row: (SearchUnit, Seq<(String, SearchUnit)>),
    now: i128,
    hs: Seq<(crate::search::due::DueKeyword, Option<i128>)>,
) -> bool {
    matches_unit(tree, row.0, now, hs) || matching_subtasks(tree, row.1, now, hs).len() > 0
}

/// How many of `rows` a query lists.
pub open spec fn listed_count(
    tree: Option<crate::search::eval::NodeView>,
    rows: Seq<(SearchUnit, Seq<(String, SearchUnit)>)>,
    now: i128,
    hs: Seq<(crate::search::due::DueKeyword, Option<i128>)>,
) -> nat
    decreases rows.len(),
{
    if rows.len() == 0 {
        0
    } else {
        listed_count(tree, rows.drop_last(), now, hs) + if row_listed(tree, rows.last(), now, hs) { 1nat } else { 0nat }
    }
}

pub open spec fn rows_view<'a>(rows: Seq<(SearchUnit<'a>, Vec<(String, SearchUnit<'a>)>)>) -> Seq<
    (SearchUnit<'a>, Seq<(String, SearchUnit<'a>)>),
> {
    rows.map_values(|r: (SearchUnit<'a>, Vec<(String, SearchUnit<'a>)>)| (r.0, r.1@))
}

proof fn lemma_listed_count<'a>(
    tree: Option<crate::search::eval::NodeView>,
    rows: Seq<(SearchUnit<'a>, Seq<(String, SearchUnit<'a>)>)>,
    now: i128,
    hs: Seq<(crate::search::due::DueKeyword, Option<i128>)>,
)
    ensures
        listed_count(tree, rows, now, hs) <= rows.len(),
    decreases rows.len(),
{
    if rows.len() > 0 {
        lemma_listed_count(tree, rows.drop_last(), now, hs);
    }
}

/// How many rows a filter button's query would list on its own, as the
/// button shows it: a row counts when its task or one of its subtasks
/// matches; the count stops at `i32::MAX`.
pub fn count_listed(query: &Prepared, context: &EvalContext, rows: &Vec<(SearchUnit, Vec<(String, SearchUnit)>)>) -> (r:
    i32)
    ensures
        r == if listed_count(query.tree(), rows_view(rows@), context.now, context.horizons@) > i32::MAX {
            i32::MAX as int
        } else {
            listed_count(query.tree(), rows_view(rows@), context.now, context.horizons@) as int
        },
{
    let ghost all = rows_view(rows@);
    let mut count: usize = 0;
    let mut i: usize = 0;
    while i < rows.len()
        invariant
            i <= rows@.len(),
            all == rows_view(rows@),
            count == listed_count(query.tree(), all.take(i as int), context.now, context.horizons@),
        decreases rows@.len() - i,
    {
        proof {
            assert(all.take(i + 1).drop_last() =~= all.take(i as int));
            assert(all.take(i + 1).last() == (rows@[i as int].0, rows@[i as int].1@));
            lemma_listed_count(query.tree(), all.take(i as int), context.now, context.horizons@);
        }
        let (task, subtasks) = evaluate_units(query, context, &rows[i].0, &rows[i].1);
        if task || subtasks.len() > 0 {
            count = count + 1;
        }
        i = i + 1;
    }
    assert(all.take(rows@.len() as int) =~= all);
    if count > i32::MAX as usize {
        i32::MAX
    } else {
        count as i32
    }
}

/// Whether a list holds a task with the subtask `subtask_id`.
pub open spec fn holds_subtask(l: ListInfo, subtask_id: Seq<char>) -> bool {
    exists|t: int| 0 <= t < l.tasks@.len() && strings_view((#[trigger] l.tasks@[t]).subtask_ids@).contains(subtask_id)
}

/// The first project from `i` on with a task that has the subtask `subtask_id`.
pub open spec fn project_of_subtask_from(ps: Seq<ProjectInfo>, subtask_id: Seq<char>, i: int) -> Option<Seq<char>>
    decreases ps.len() - i,
{
    if i < 0 || i >= ps.len() {
        None
    } else if exists|l: int| 0 <= l < ps[i].lists@.len() && holds_subtask(#[trigger] ps[i].lists@[l], subtask_id) {
        Some(ps[i].id@)
    } else {
        project_of_subtask_from(ps, subtask_id, i + 1)
    }
}

/// The project that owns the subtask `subtask_id`.
pub fn project_of_subtask(trees: &Vec<ProjectInfo>, subtask_id: &str) -> (r: Option<String>)
    ensures
        opt_text(r) == project_of_subtask_from(trees@, subtask_id@, 0),
{
    let ghost ps = trees@;
    let mut i: usize = 0;
    while i < trees.len()
        invariant
            ps == trees@,
            i <= ps.len(),
            project_of_subtask_from(ps, subtask_id@, i as int) == project_of_subtask_from(ps, subtask_id@, 0),
        decreases ps.len() - i,
    {
        let lists = &trees[i].lists;
        let mut l: usize = 0;
        while l < lists.len()
            invariant
                ps == trees@,
                i < ps.len(),
                lists == &ps[i as int].lists,
                l <= lists@.len(),
                project_of_subtask_from(ps, subtask_id@, i as int) == project_of_subtask_from(ps, subtask_id@, 0),
                forall|j: int| 0 <= j < l ==> !holds_subtask(#[trigger] lists@[j], subtask_id@),
            decreases lists@.len() - l,
        {
            let tasks = &lists[l].tasks;
            let mut t: usize = 0;
            while t < tasks.len()
                invariant
                    ps == trees@,
                    i < ps.len(),
                    lists == &ps[i as int].lists,
                    l < lists@.len(),
                    tasks == &lists@[l as int].tasks,
                    t <= tasks@.len(),
                    project_of_subtask_from(ps, subtask_id@, i as int) == project_of_subtask_from(ps, subtask_id@, 0),
                    forall|j: int| 0 <= j < l ==> !holds_subtask(#[trigger] lists@[j], subtask_id@),
                    forall|k: int| 0 <= k < t ==> !strings_view((#[trigger] tasks@[k]).subtask_ids@).contains(subtask_id@),
                decreases tasks@.len() - t,
            {
                if contains_id(&tasks[t].subtask_ids, subtask_id) {
                    assert(holds_subtask(lists@[l as int], subtask_id@));
                    assert(holds_subtask(ps[i as int].lists@[l as int], subtask_id@));
                    return Some(trees[i].id.clone());
                }
                t = t + 1;
            }
            l = l + 1;
        }
        i = i + 1;
    }
    None
}

/// The first place from `t` on of a task with the id `task_id`.
pub open spec fn first_task_from(tasks: Seq<TaskInfo>, task_id: Seq<char>, t: int) -> Option<int>
    decreases tasks.len() - t,
{
    if t < 0 || t >= tasks.len() {
        None
    } else if tasks[t].id@ == task_id {
        Some(t)
    } else {
        first_task_from(tasks, task_id, t + 1)
    }
}

/// The place of the first task `task_id` within a project, list by list,
/// from its list `l` on.
pub open spec fn task_in_project(p: ProjectInfo, task_id: Seq<char>, l: int) -> Option<(int, int)>
    decreases p.lists@.len() - l,
{
    if l < 0 || l >= p.lists@.len() {
        None
    } else {
        match first_task_from(p.lists@[l].tasks@, task_id, 0) {
            Some(t) => Some((l, t)),
            None => task_in_project(p, task_id, l + 1),
        }
    }
}

/// The first project from `i` on that holds the task `task_id`.
pub open spec fn project_index_of_task(ps: Seq<ProjectInfo>, task_id: Seq<char>, i: int) -> Option<int>
    decreases ps.len() - i,
{
    if i < 0 || i >= ps.len() {
        None
    } else if task_in_project(ps[i], task_id, 0) is Some {
        Some(i)
    } else {
        project_index_of_task(ps, task_id, i + 1)
    }
}

fn first_task_with_id(tasks: &Vec<TaskInfo>, task_id: &str) -> (r: Option<usize>)
    ensures
        match r {
            Some(t) => first_task_from(tasks@, task_id@, 0) == Some(t as int),
            None => first_task_from(tasks@, task_id@, 0) is None,
        },
{
    let mut t: usize = 0;
    while t < tasks.len()
        invariant
            t <= tasks@.len(),
            first_task_from(tasks@, task_id@, t as int) == first_task_from(tasks@, task_id@, 0),
        decreases tasks@.len() - t,
    {
        if same_text(tasks[t].id.as_str(), task_id) {
            return Some(t);
        }
        t = t + 1;
    }
    None
}

/// Where the task `task_id` is: the first project holding it, and within it
/// the first list and place.
pub fn task_with_project(trees: &Vec<ProjectInfo>, task_id: &str) -> (r: Option<(usize, usize, usize)>)
    ensures
        match r {
            Some((p, l, t)) => {
                &&& project_index_of_task(trees@, task_id@, 0) == Some(p as int)
                &&& task_in_project(trees@[p as int], task_id@, 0) == Some((l as int, t as int))
            },
            None => project_index_of_task(trees@, task_id@, 0) is None,
        },
{
    let ghost ps = trees@;
    let mut i: usize = 0;
    while i < trees.len()
        invariant
            ps == trees@,
            i <= ps.len(),
            project_index_of_task(ps, task_id@, i as int) == project_index_of_task(ps, task_id@, 0),
        decreases ps.len() - i,
    {
        let lists = &trees[i].lists;
        let mut l: usize = 0;
        while l < lists.len()
            invariant
                ps == trees@,
                i < ps.len(),
                lists == &ps[i as int].lists,
                l <= lists@.len(),
                project_index_of_task(ps, task_id@, i as int) == project_index_of_task(ps, task_id@, 0),
                task_in_project(ps[i as int], task_id@, l as int) == task_in_project(ps[i as int], task_id@, 0),
            decreases lists@.len() - l,
        {
            match first_task_with_id(&lists[l].tasks, task_id) {
                Some(t) => {
                    assert(task_in_project(ps[i as int], task_id@, l as int) == Some((l as int, t as int)));
                    return Some((i, l, t));
                },
                None => {},
            }
            l = l + 1;
        }
        i = i + 1;
    }
    None
}

/// The names of every tag the cache holds that is not deleted, project by
/// project, in order.
pub open spec fn live_tag_names(tags: Seq<(String, Vec<crate::adapters::tag::Tag>)>) -> Seq<Seq<char>>
    decreases tags.len(),
{
    if tags.len() == 0 {
        Seq::empty()
    } else {
        live_tag_names(tags.drop_last()) + names_of_live(tags.last().1@)
    }
}

pub open spec fn names_of_live(ts: Seq<crate::adapters::tag::Tag>) -> Seq<Seq<char>>
    decreases ts.len(),
{
    if ts.len() == 0 {
        Seq::empty()
    } else if ts.last().deleted {
        names_of_live(ts.drop_last())
    } else {
        names_of_live(ts.drop_last()).push(ts.last().name@)
    }
}

/// The names of every tag the cache holds that is not deleted: the words
/// the search box suggests after `#`.
pub fn tag_names(tags_by_project: &Vec<(String, Vec<crate::adapters::tag::Tag>)>) -> (r: Vec<String>)
    ensures
        strings_view(r@) == live_tag_names(tags_by_project@),
{
    let ghost all = tags_by_project@;
    let mut out: Vec<String> = Vec::new();
    let mut i: usize = 0;
    while i < tags_by_project.len()
        invariant
            i <= all.len(),
            all == tags_by_project@,
            strings_view(out@) == live_tag_names(all.take(i as int)),
        decreases all.len() - i,
    {
        proof {
            assert(all.take(i + 1).drop_last() =~= all.take(i as int));
        }
        let tags = &tags_by_project[i].1;
        let ghost before = strings_view(out@);
        let mut j: usize = 0;
        while j < tags.len()
            invariant
                j <= tags@.len(),
                strings_view(out@) == before + names_of_live(tags@.take(j as int)),
            decreases tags@.len() - j,
        {
            proof {
                assert(tags@.take(j + 1).drop_last() =~= tags@.take(j as int));
            }
            if !tags[j].deleted {
                let ghost prev = out@;
                out.push(tags[j].name.clone());
                assert(strings_view(out@) =~= strings_view(prev).push(tags@[j as int].name@));
            }
            j = j + 1;
        }
        proof {
            assert(tags@.take(tags@.len() as int) =~= tags@);
        }
        i = i + 1;
    }
    assert(all.take(all.len() as int) =~= all);
    out
}


/// The number of tasks in the first list `l` on of `ls` with the id `list_id`.
pub open spec fn task_count_in(ls: Seq<ListInfo>, list_id: Seq<char>, l: int) -> Option<int>
    decreases ls.len() - l,
{
    if l < 0 || l >= ls.len() {
        None
    } else if ls[l].id@ == list_id {
        Some(ls[l].tasks@.len() as int)
    } else {
        task_count_in(ls, list_id, l + 1)
    }
}

/// The number of tasks in the first list with the id `list_id`, searching the
/// projects from `i` on.
pub open spec fn task_count_from(ps: Seq<ProjectInfo>, list_id: Seq<char>, i: int) -> Option<int>
    decreases ps.len() - i,
{
    if i < 0 || i >= ps.len() {
        None
    } else {
        match task_count_in(ps[i].lists@, list_id, 0) {
            Some(n) => Some(n),
            None => task_count_from(ps, list_id, i + 1),
        }
    }
}

/// The order index a task added to `list_id` gets: the number of tasks the
/// list holds, written as an `i32`; 0 for a list that is not loaded.
pub open spec fn new_task_order(ps: Seq<ProjectInfo>, list_id: Seq<char>) -> i32 {
    match task_count_from(ps, list_id, 0) {
        Some(n) => n as i32,
        None => 0,
    }
}

/// The title and order index of a task added to `list_id` under `title`:
/// `None`, and nothing is added, when the trimmed title or the list id is
/// empty.
pub fn new_task_plan(trees: &Vec<ProjectInfo>, list_id: &str, title: &str) -> (r: Option<(String, i32)>)
    ensures
        r is None <==> (trimmed(title@).len() == 0 || list_id@.len() == 0),
        r matches Some((t, order)) ==> t@ == trimmed(title@) && order == new_task_order(trees@, list_id@),
{
    let t = trim(title);
    if t.as_str().unicode_len() == 0 || list_id.unicode_len() == 0 {
        return None;
    }
    let ghost ps = trees@;
    let mut i: usize = 0;
    while i < trees.len()
        invariant
            ps == trees@,
            i <= ps.len(),
            t@ == trimmed(title@),
            trimmed(title@).len() > 0,
            list_id@.len() > 0,
            task_count_from(ps, list_id@, i as int) == task_count_from(ps, list_id@, 0),
        decreases ps.len() - i,
    {
        let lists = &trees[i].lists;
        let mut l: usize = 0;
        while l < lists.len()
            invariant
                ps == trees@,
                i < ps.len(),
                lists == &ps[i as int].lists,
                l <= lists@.len(),
                t@ == trimmed(title@),
                trimmed(title@).len() > 0,
                list_id@.len() > 0,
                task_count_from(ps, list_id@, i as int) == task_count_from(ps, list_id@, 0),
                task_count_in(lists@, list_id@, l as int) == task_count_in(lists@, list_id@, 0),
            decreases lists@.len() - l,
        {
            if same_text(lists[l].id.as_str(), list_id) {
                assert(task_count_in(lists@, list_id@, l as int) == Some(lists@[l as int].tasks@.len() as int));
                let order = lists[l].tasks.len() as i32;
                return Some((t, order));
            }
            l = l + 1;
        }
        i = i + 1;
    }
    Some((t, 0))
}

} // verus!
