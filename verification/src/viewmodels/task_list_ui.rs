//! Accordion state for the task list: which task rows show their subtasks.

use vstd::prelude::*;
use crate::text::same_text;

verus! {

/// The ids in `v`, as a set.
pub open spec fn id_set(v: Seq<String>) -> Set<Seq<char>> {
    v.map_values(|s: String| s@).to_set()
}

/// What [`TaskListUiViewModel::toggle`] makes of the expanded set.
pub open spec fn toggled(s: Set<Seq<char>>, id: Seq<char>) -> Set<Seq<char>> {
    if s.contains(id) {
        s.remove(id)
    } else {
        s.insert(id)
    }
}

/// Which task rows are currently expanded.
pub struct TaskListUiViewModel {
    expanded: Vec<String>,
}

proof fn lemma_id_set_push(v: Seq<String>, s: String)
    ensures
        id_set(v.push(s)) == id_set(v).insert(s@),
{
    assert(v.push(s).map_values(|x: String| x@) =~= v.map_values(|x: String| x@).push(s@));
    let a = v.push(s).map_values(|x: String| x@);
    let b = v.map_values(|x: String| x@);
    assert forall|t: Seq<char>| a.to_set().contains(t) <==> b.to_set().insert(s@).contains(t) by {
        if a.contains(t) && t != s@ {
            let i = choose|i: int| 0 <= i < a.len() && a[i] == t;
            assert(b[i] == t);
        }
        if b.contains(t) {
            let i = choose|i: int| 0 <= i < b.len() && b[i] == t;
            assert(a[i] == t);
        }
        if t == s@ {
            assert(a[b.len() as int] == t);
        }
    }
    assert(a.to_set() =~= b.to_set().insert(s@));
}

impl TaskListUiViewModel {
    /// The ids of the expanded rows.
    pub closed spec fn expanded_ids(self) -> Set<Seq<char>> {
        id_set(self.expanded@)
    }

    pub fn new() -> (r: Self)
        ensures
            r.expanded_ids() == Set::<Seq<char>>::empty(),
    {
        let r = TaskListUiViewModel { expanded: Vec::new() };
        assert(id_set(r.expanded@) =~= Set::<Seq<char>>::empty());
        r
    }

    fn position(&self, task_id: &str) -> (r: Option<usize>)
        ensures
            r matches Some(i) ==> i < self.expanded@.len() && self.expanded@[i as int]@ == task_id@,
            r is None ==> !self.expanded_ids().contains(task_id@),
    {
        let mut i: usize = 0;
        while i < self.expanded.len()
            invariant
                i <= self.expanded@.len(),
                forall|k: int| 0 <= k < i ==> (#[trigger] self.expanded@[k])@ != task_id@,
            decreases self.expanded@.len() - i,
        {
            if same_text(self.expanded[i].as_str(), task_id) {
                return Some(i);
            }
            i = i + 1;
        }
        proof {
            let m = self.expanded@.map_values(|x: String| x@);
            if m.contains(task_id@) {
                let k = choose|k: int| 0 <= k < m.len() && m[k] == task_id@;
                assert(self.expanded@[k]@ == task_id@);
            }
        }
        None
    }

    /// Whether `task_id`'s subtasks are shown.
    pub fn is_expanded(&self, task_id: &str) -> (r: bool)
        ensures
            r == self.expanded_ids().contains(task_id@),
    {
        let found = self.position(task_id);
        proof {
            if let Some(i) = found {
                assert(self.expanded@.map_values(|x: String| x@)[i as int] == task_id@);
            }
        }
        found.is_some()
    }

    /// Drops every entry for `task_id`.
    fn remove_all(&mut self, task_id: &str)
        ensures
            final(self).expanded_ids() == old(self).expanded_ids().remove(task_id@),
    {
        let ghost before = self.expanded@;
        let mut kept: Vec<String> = Vec::new();
        let mut i: usize = 0;
        while i < self.expanded.len()
            invariant
                i <= self.expanded@.len(),
                self.expanded@ == before,
                id_set(kept@) == id_set(before.take(i as int)).remove(task_id@),
            decreases self.expanded@.len() - i,
        {
            proof {
                assert(before.take(i + 1) =~= before.take(i as int).push(before[i as int]));
                lemma_id_set_push(before.take(i as int), before[i as int]);
            }
            if !same_text(self.expanded[i].as_str(), task_id) {
                let ghost old_kept = kept@;
                kept.push(self.expanded[i].clone());
                proof {
                    lemma_id_set_push(old_kept, kept@.last());
                    assert(id_set(kept@) =~= id_set(before.take(i + 1)).remove(task_id@));
                }
            } else {
                assert(id_set(kept@) =~= id_set(before.take(i + 1)).remove(task_id@));
            }
            i = i + 1;
        }
        assert(before.take(before.len() as int) =~= before);
        self.expanded = kept;
    }

    /// Flips the expansion state and reports the new value.
    pub fn toggle(&mut self, task_id: &str) -> (r: bool)
        ensures
            r == !old(self).expanded_ids().contains(task_id@),
            final(self).expanded_ids() == toggled(old(self).expanded_ids(), task_id@),
    {
        if self.is_expanded(task_id) {
            self.remove_all(task_id);
            false
        } else {
            self.expand(task_id);
            true
        }
    }

    pub fn expand(&mut self, task_id: &str)
        ensures
            final(self).expanded_ids() == old(self).expanded_ids().insert(task_id@),
    {
        if self.is_expanded(task_id) {
            assert(self.expanded_ids().insert(task_id@) =~= self.expanded_ids());
            return;
        }
        let ghost before = self.expanded@;
        let id = String::from_str(task_id);
        self.expanded.push(id);
        proof {
            lemma_id_set_push(before, self.expanded@.last());
        }
    }

    pub fn collapse(&mut self, task_id: &str)
        ensures
            final(self).expanded_ids() == old(self).expanded_ids().remove(task_id@),
    {
        self.remove_all(task_id);
    }

    /// Clears all expansion state.
    pub fn reset(&mut self)
        ensures
            final(self).expanded_ids() == Set::<Seq<char>>::empty(),
    {
        self.expanded = Vec::new();
        assert(id_set(self.expanded@) =~= Set::<Seq<char>>::empty());
    }
}

impl Default for TaskListUiViewModel {
    fn default() -> (r: Self)
        ensures
            r.expanded_ids() == Set::<Seq<char>>::empty(),
    {
        TaskListUiViewModel::new()
    }
}

/// Toggling a row twice leaves the expanded set as it was.
pub proof fn law_toggle_twice_restores(s: Set<Seq<char>>, id: Seq<char>)
    ensures
        toggled(toggled(s, id), id) == s,
{
    if s.contains(id) {
        assert(s.remove(id).insert(id) =~= s);
    } else {
        assert(s.insert(id).remove(id) =~= s);
    }
}

/// Expanding a row that is already expanded changes nothing.
pub proof fn law_expand_is_idempotent(s: Set<Seq<char>>, id: Seq<char>)
    ensures
        s.insert(id).insert(id) == s.insert(id),
{
    assert(s.insert(id).insert(id) =~= s.insert(id));
}

} // verus!
