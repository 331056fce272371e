//! Small rules of the main window: edit coalescing, ordering of new items,
//! keyboard navigation and priority values.

use vstd::prelude::*;
use crate::adapters::task::TaskPriority;
use crate::text::same_text;
use crate::viewmodels::runtime_store::TaskStatus;

pub mod query;

verus! {

/// One row's pending edit: its latest revision and the snapshot from before
/// the first keystroke.
pub struct PendingEdit<S> {
    pub key: String,
    pub revision: u64,
    pub rollback_snapshot: S,
}

/// Coalesces repeated edits of the same row while retaining the snapshot from
/// before the first keystroke for a correct rollback.
pub struct EditDebouncer<S> {
    pending: Vec<PendingEdit<S>>,
}

/// The pending edits by row: revision and rollback snapshot.
pub open spec fn pending_map<S>(v: Seq<PendingEdit<S>>) -> Map<Seq<char>, (u64, S)>
    decreases v.len(),
{
    if v.len() == 0 {
        Map::empty()
    } else {
        pending_map(v.drop_last()).insert(
            v.last().key@,
            (v.last().revision, v.last().rollback_snapshot),
        )
    }
}

/// No row has two entries.
pub open spec fn keys_distinct<S>(v: Seq<PendingEdit<S>>) -> bool {
    forall|i: int, j: int| 0 <= i < j < v.len() ==> (#[trigger] v[i]).key@ != (#[trigger] v[j]).key@
}

proof fn lemma_pending_map_entry<S>(v: Seq<PendingEdit<S>>, i: int)
    requires
        keys_distinct(v),
        0 <= i < v.len(),
    ensures
        pending_map(v).contains_key(v[i].key@),
        pending_map(v)[v[i].key@] == (v[i].revision, v[i].rollback_snapshot),
    decreases v.len(),
{
    if i < v.len() - 1 {
        assert(v.drop_last()[i] == v[i]);
        lemma_pending_map_entry(v.drop_last(), i);
    }
}

proof fn lemma_pending_map_keys<S>(v: Seq<PendingEdit<S>>, key: Seq<char>)
    ensures
        pending_map(v).contains_key(key) <==> exists|i: int| 0 <= i < v.len() && (#[trigger] v[i]).key@ == key,
    decreases v.len(),
{
    if v.len() > 0 {
        lemma_pending_map_keys(v.drop_last(), key);
        if pending_map(v.drop_last()).contains_key(key) {
            let i = choose|i: int| 0 <= i < v.drop_last().len() && (#[trigger] v.drop_last()[i]).key@ == key;
            assert(v[i] == v.drop_last()[i]);
        }
        if exists|i: int| 0 <= i < v.len() && (#[trigger] v[i]).key@ == key {
            let i = choose|i: int| 0 <= i < v.len() && (#[trigger] v[i]).key@ == key;
            if i < v.len() - 1 {
                assert(v.drop_last()[i] == v[i]);
            }
        }
    }
}

impl<S> EditDebouncer<S> {
    #[verifier::type_invariant]
    spec fn one_entry_per_row(self) -> bool {
        keys_distinct(self.pending@)
    }

    /// The pending edits, by row key.
    pub closed spec fn pending_edits(self) -> Map<Seq<char>, (u64, S)> {
        pending_map(self.pending@)
    }

    pub fn new() -> (r: Self)
        ensures
            r.pending_edits() == Map::<Seq<char>, (u64, S)>::empty(),
    {
        EditDebouncer { pending: Vec::new() }
    }

    fn position(&self, key: &str) -> (r: Option<usize>)
        ensures
            r matches Some(i) ==> i < self.pending@.len() && self.pending@[i as int].key@ == key@,
            r is None ==> !self.pending_edits().contains_key(key@),
    {
        let mut i: usize = 0;
        while i < self.pending.len()
            invariant
                i <= self.pending@.len(),
                forall|k: int| 0 <= k < i ==> (#[trigger] self.pending@[k]).key@ != key@,
            decreases self.pending@.len() - i,
        {
            if same_text(self.pending[i].key.as_str(), key) {
                return Some(i);
            }
            i = i + 1;
        }
        proof {
            lemma_pending_map_keys(self.pending@, key@);
        }
        None
    }

    /// Records an edit of row `key` and returns its revision.
    ///
    /// The first edit of a row keeps `rollback_snapshot`; later ones only bump
    /// the revision, wrapping at the end of the range.
    pub fn schedule(&mut self, key: String, rollback_snapshot: S) -> (r: u64)
        ensures
            final(self).pending_edits() == old(self).pending_edits().insert(
                key@,
                (
                    r,
                    if old(self).pending_edits().contains_key(key@) {
                        old(self).pending_edits()[key@].1
                    } else {
                        rollback_snapshot
                    },
                ),
            ),
            r == if old(self).pending_edits().contains_key(key@) {
                if old(self).pending_edits()[key@].0 == u64::MAX {
                    0
                } else {
                    (old(self).pending_edits()[key@].0 + 1) as u64
                }
            } else {
                1
            },
    {
        proof {
            use_type_invariant(&*self);
        }
        match self.position(key.as_str()) {
            Some(i) => {
                proof {
                    lemma_pending_map_entry(self.pending@, i as int);
                }
                let ghost before = self.pending@;
                let old_revision = self.pending[i].revision;
                let revision = if old_revision == u64::MAX {
                    0
                } else {
                    old_revision + 1
                };
                let mut entries: Vec<PendingEdit<S>> = Vec::new();
                std::mem::swap(&mut entries, &mut self.pending);
                let mut entry = entries.remove(i);
                entry.revision = revision;
                entries.insert(i, entry);
                proof {
                    assert(entries@ =~= before.update(i as int, entries@[i as int]));
                    lemma_update_map(before, i as int, entries@[i as int]);
                }
                self.pending = entries;
                revision
            },
            None => {
                let ghost before = self.pending@;
                let mut entries: Vec<PendingEdit<S>> = Vec::new();
                std::mem::swap(&mut entries, &mut self.pending);
                entries.push(PendingEdit { key, revision: 1, rollback_snapshot });
                proof {
                    lemma_pending_map_keys(before, entries@.last().key@);
                    assert(entries@.drop_last() =~= before);
                    assert forall|i: int, j: int|
                        0 <= i < j < entries@.len() implies (#[trigger] entries@[i]).key@
                        != (#[trigger] entries@[j]).key@ by {
                        if j == entries@.len() - 1 {
                            assert(before[i] == entries@[i]);
                        } else {
                            assert(before[i] == entries@[i]);
                            assert(before[j] == entries@[j]);
                        }
                    }
                }
                self.pending = entries;
                1
            },
        }
    }
}

/// Replacing the entry at `i` by one with the same key replaces its value in the map.
proof fn lemma_update_map<S>(v: Seq<PendingEdit<S>>, i: int, e: PendingEdit<S>)
    requires
        keys_distinct(v),
        0 <= i < v.len(),
        e.key@ == v[i].key@,
    ensures
        keys_distinct(v.update(i, e)),
        pending_map(v.update(i, e)) == pending_map(v).insert(e.key@, (e.revision, e.rollback_snapshot)),
    decreases v.len(),
{
    let w = v.update(i, e);
    assert forall|a: int, b: int| 0 <= a < b < w.len() implies (#[trigger] w[a]).key@ != (#[trigger] w[b]).key@ by {
        assert(v[a].key@ != v[b].key@);
    }
    if i == v.len() - 1 {
        assert(w.drop_last() =~= v.drop_last());
        lemma_pending_map_keys(v.drop_last(), e.key@);
        assert(pending_map(w) =~= pending_map(v).insert(e.key@, (e.revision, e.rollback_snapshot)));
    } else {
        assert(w.drop_last() =~= v.drop_last().update(i, e));
        assert(keys_distinct(v.drop_last())) by {
            assert forall|a: int, b: int| 0 <= a < b < v.drop_last().len() implies (#[trigger] v.drop_last()[a]).key@ != (#[trigger] v.drop_last()[b]).key@ by {
                assert(v.drop_last()[a] == v[a]);
                assert(v.drop_last()[b] == v[b]);
            }
        }
        lemma_update_map(v.drop_last(), i, e);
        assert(v.last().key@ != e.key@) by {
            assert(v[v.len() - 1].key@ != v[i].key@);
        }
        assert(pending_map(w) =~= pending_map(v).insert(e.key@, (e.revision, e.rollback_snapshot)));
    }
}

/// Removing the entry at `i` removes its key from the map.
proof fn lemma_remove_map<S>(v: Seq<PendingEdit<S>>, i: int)
    requires
        keys_distinct(v),
        0 <= i < v.len(),
    ensures
        keys_distinct(v.remove(i)),
        pending_map(v.remove(i)) == pending_map(v).remove(v[i].key@),
    decreases v.len(),
{
    let w = v.remove(i);
    assert forall|a: int, b: int| 0 <= a < b < w.len() implies (#[trigger] w[a]).key@ != (#[trigger] w[b]).key@ by {
        let a2 = if a < i { a } else { a + 1 };
        let b2 = if b < i { b } else { b + 1 };
        assert(w[a] == v[a2]);
        assert(w[b] == v[b2]);
        assert(v[a2].key@ != v[b2].key@);
    }
    let key = v[i].key@;
    if i == v.len() - 1 {
        assert(w =~= v.drop_last());
        lemma_pending_map_keys(v.drop_last(), key);
        assert forall|k: int| 0 <= k < v.drop_last().len() implies (#[trigger] v.drop_last()[k]).key@ != key by {
            assert(v.drop_last()[k] == v[k]);
        }
        assert(pending_map(w) =~= pending_map(v).remove(key));
    } else {
        assert(w.drop_last() =~= v.drop_last().remove(i));
        assert(w.last() == v.last());
        assert(keys_distinct(v.drop_last())) by {
            assert forall|a: int, b: int| 0 <= a < b < v.drop_last().len() implies (#[trigger] v.drop_last()[a]).key@ != (#[trigger] v.drop_last()[b]).key@ by {
                assert(v.drop_last()[a] == v[a]);
                assert(v.drop_last()[b] == v[b]);
            }
        }
        assert(v.drop_last()[i] == v[i]);
        lemma_remove_map(v.drop_last(), i);
        assert(v.last().key@ != key) by {
            assert(v[v.len() - 1].key@ != v[i].key@);
        }
        assert(pending_map(w) =~= pending_map(v).remove(key));
    }
}

impl<S> EditDebouncer<S> {
    /// Releases the rollback snapshot of row `key` when `revision` is its
    /// latest edit, forgetting the row; any older revision gets nothing.
    pub fn take_if_latest(&mut self, key: &str, revision: u64) -> (r: Option<S>)
        ensures
            old(self).pending_edits().contains_key(key@) && old(self).pending_edits()[key@].0
                == revision ==> r == Some(old(self).pending_edits()[key@].1)
                && final(self).pending_edits() == old(self).pending_edits().remove(key@),
            !(old(self).pending_edits().contains_key(key@) && old(self).pending_edits()[key@].0
                == revision) ==> r is None && final(self).pending_edits() == old(
                self,
            ).pending_edits(),
    {
        proof {
            use_type_invariant(&*self);
        }
        let i = match self.position(key) {
            Some(i) => i,
            None => return None,
        };
        proof {
            lemma_pending_map_entry(self.pending@, i as int);
        }
        if self.pending[i].revision != revision {
            return None;
        }
        let ghost before = self.pending@;
        let mut entries: Vec<PendingEdit<S>> = Vec::new();
        std::mem::swap(&mut entries, &mut self.pending);
        let entry = entries.remove(i);
        proof {
            lemma_remove_map(before, i as int);
        }
        self.pending = entries;
        Some(entry.rollback_snapshot)
    }
}

impl<S> Default for EditDebouncer<S> {
    fn default() -> (r: Self)
        ensures
            r.pending_edits() == Map::<Seq<char>, (u64, S)>::empty(),
    {
        EditDebouncer::new()
    }
}

/// The largest element of a non-empty sequence.
pub open spec fn seq_max(s: Seq<i32>) -> i32
    recommends
        s.len() > 0,
    decreases s.len(),
{
    if s.len() <= 1 {
        s[0]
    } else if s.last() > seq_max(s.drop_last()) {
        s.last()
    } else {
        seq_max(s.drop_last())
    }
}

/// The order index that puts a new item after all of `order_indexes`: one
/// past the highest, saturating, or zero for the first item.
pub open spec fn next_after(order_indexes: Seq<i32>) -> i32 {
    if order_indexes.len() == 0 {
        0
    } else if seq_max(order_indexes) == i32::MAX {
        i32::MAX
    } else {
        (seq_max(order_indexes) + 1) as i32
    }
}

/// The order index for a new project, list or tree item.
pub fn next_order_index(order_indexes: &[i32]) -> (r: i32)
    ensures
        r == next_after(order_indexes@),
        order_indexes@.len() > 0 && seq_max(order_indexes@) < i32::MAX ==> forall|i: int|
            0 <= i < order_indexes@.len() ==> order_indexes@[i] < r,
{
    if order_indexes.len() == 0 {
        return 0;
    }
    let mut best = order_indexes[0];
    let mut i: usize = 1;
    proof {
        assert(order_indexes@.take(1).len() == 1);
    }
    while i < order_indexes.len()
        invariant
            1 <= i <= order_indexes@.len(),
            best == seq_max(order_indexes@.take(i as int)),
            forall|k: int| 0 <= k < i ==> order_indexes@[k] <= best,
        decreases order_indexes@.len() - i,
    {
        proof {
            assert(order_indexes@.take(i + 1).drop_last() =~= order_indexes@.take(i as int));
        }
        if order_indexes[i] > best {
            best = order_indexes[i];
        }
        i = i + 1;
    }
    proof {
        assert(order_indexes@.take(order_indexes@.len() as int) =~= order_indexes@);
    }
    if best == i32::MAX {
        i32::MAX
    } else {
        best + 1
    }
}

/// The order index for a new subtask: one past the highest of its siblings.
pub fn next_subtask_order(order_indexes: &[i32]) -> (r: i32)
    ensures
        r == next_after(order_indexes@),
{
    next_order_index(order_indexes)
}

/// The stored priority a UI level is written as.
pub open spec fn priority_number(priority: TaskPriority) -> i32 {
    match priority {
        TaskPriority::Unset => 0,
        TaskPriority::Low => 1,
        TaskPriority::Medium => 3,
        TaskPriority::High => 6,
    }
}

pub fn priority_value(priority: TaskPriority) -> (r: i32)
    ensures
        r == priority_number(priority),
{
    match priority {
        TaskPriority::Unset => 0,
        TaskPriority::Low => 1,
        TaskPriority::Medium => 3,
        TaskPriority::High => 6,
    }
}

/// Where keyboard navigation moves the task selection: from nothing selected
/// to the first row (or the last, moving up), otherwise by `delta` rows,
/// stopping at either end.
pub open spec fn selection_after(row_count: usize, selected: Option<usize>, delta: i32) -> Option<
    usize,
> {
    if row_count == 0 {
        None
    } else {
        match selected {
            None => Some(
                if delta < 0 {
                    (row_count - 1) as usize
                } else {
                    0
                },
            ),
            Some(current) => {
                let moved = current + delta;
                let clamped = if moved < 0 {
                    0
                } else if moved > usize::MAX {
                    usize::MAX as int
                } else {
                    moved
                };
                Some(
                    if clamped > row_count - 1 {
                        (row_count - 1) as usize
                    } else {
                        clamped as usize
                    },
                )
            },
        }
    }
}

pub fn task_selection_index(row_count: usize, selected: Option<usize>, delta: i32) -> (r: Option<
    usize,
>)
    ensures
        r == selection_after(row_count, selected, delta),
        r matches Some(i) ==> i < row_count,
{
    if row_count == 0 {
        return None;
    }
    let current = match selected {
        None => {
            return Some(
                if delta < 0 {
                    row_count - 1
                } else {
                    0
                },
            );
        },
        Some(current) => current,
    };
    let moved = if delta < 0 {
        let back = (-(delta as i64)) as u64;
        if (current as u64) < back {
            0
        } else {
            current - (back as usize)
        }
    } else {
        let ahead = delta as usize;
        if current > usize::MAX - ahead {
            usize::MAX
        } else {
            current + ahead
        }
    };
    Some(
        if moved > row_count - 1 {
            row_count - 1
        } else {
            moved
        },
    )
}

/// The first or the last row, when there is one.
pub fn task_boundary_index(row_count: usize, first: bool) -> (r: Option<usize>)
    ensures
        r == if row_count == 0 {
            None
        } else if first {
            Some(0usize)
        } else {
            Some((row_count - 1) as usize)
        },
{
    if row_count == 0 {
        None
    } else if first {
        Some(0)
    } else {
        Some(row_count - 1)
    }
}

/// A subtask as storage keeps it. Instants are nanoseconds since the Unix
/// epoch, UTC.
#[derive(Debug, Clone, PartialEq, Eq)]
pub struct SubTask {
    pub id: String,
    pub task_id: String,
    pub title: String,
    pub description: Option<String>,
    pub status: TaskStatus,
    pub priority: Option<i32>,
    pub plan_start_date: Option<i128>,
    pub plan_end_date: Option<i128>,
    pub do_start_date: Option<i128>,
    pub do_end_date: Option<i128>,
    pub is_range_date: Option<bool>,
    pub assigned_user_ids: Vec<String>,
    pub tag_ids: Vec<String>,
    pub order_index: i32,
    pub completed: bool,
    pub created_at: i128,
    pub updated_at: i128,
    pub deleted: bool,
    pub updated_by: String,
}

/// A new subtask of `task_id`, not started, ready to be created under the id
/// `id` at the instant `now`.
pub fn new_subtask(task_id: &str, title: String, order_index: i32, user_id: &str, id: &str, now: i128) -> (r:
    SubTask)
    ensures
        r.id@ == id@,
        r.task_id@ == task_id@,
        r.title == title,
        r.description is None,
        r.status == TaskStatus::NotStarted,
        r.priority is None,
        r.plan_start_date is None && r.plan_end_date is None,
        r.do_start_date is None && r.do_end_date is None,
        r.is_range_date is None,
        r.assigned_user_ids@.len() == 0 && r.tag_ids@.len() == 0,
        r.order_index == order_index,
        !r.completed,
        r.created_at == now && r.updated_at == now,
        !r.deleted,
        r.updated_by@ == user_id@,
{
    SubTask {
        id: id.to_owned(),
        task_id: task_id.to_owned(),
        title,
        description: None,
        status: TaskStatus::NotStarted,
        priority: None,
        plan_start_date: None,
        plan_end_date: None,
        do_start_date: None,
        do_end_date: None,
        is_range_date: None,
        assigned_user_ids: Vec::new(),
        tag_ids: Vec::new(),
        order_index,
        completed: false,
        created_at: now,
        updated_at: now,
        deleted: false,
        updated_by: user_id.to_owned(),
    }
}

} // verus!
