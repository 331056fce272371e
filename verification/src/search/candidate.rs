//! A task shape for matching, with every searchable field lowercased once.
//!
//! Folding per condition instead would repeat the work for every condition in
//! the query, on every task, on every keystroke.

use vstd::prelude::*;
use crate::search::normalize::{lowercase_text, to_lowercase};

verus! {

/// A subtask offered for matching.
#[derive(Debug, Clone, Copy)]
pub struct SubTaskCandidate<'a> {
    pub title: &'a str,
    pub notes: Option<&'a str>,
}

/// A task with every searchable field lowercased.
#[derive(Debug)]
pub struct FoldedCandidate {
    project_name: String,
    list_name: String,
    title: String,
    tags: Vec<String>,
    notes: Option<String>,
    subtasks: Vec<(String, Option<String>)>,
}

/// The value of a [`FoldedCandidate`].
pub struct FoldedView {
    pub project_name: Seq<char>,
    pub list_name: Seq<char>,
    pub title: Seq<char>,
    pub tags: Seq<Seq<char>>,
    pub notes: Option<Seq<char>>,
    pub subtasks: Seq<(Seq<char>, Option<Seq<char>>)>,
}

pub open spec fn opt_text(o: Option<String>) -> Option<Seq<char>> {
    match o {
        Some(s) => Some(s@),
        None => None,
    }
}

pub open spec fn opt_lower(o: Option<&str>) -> Option<Seq<char>> {
    match o {
        Some(s) => Some(lowercase_text(s@)),
        None => None,
    }
}

impl View for FoldedCandidate {
    type V = FoldedView;

    closed spec fn view(&self) -> FoldedView {
        FoldedView {
            project_name: self.project_name@,
            list_name: self.list_name@,
            title: self.title@,
            tags: self.tags@.map_values(|t: String| t@),
            notes: opt_text(self.notes),
            subtasks: self.subtasks@.map_values(|p: (String, Option<String>)| (p.0@, opt_text(p.1))),
        }
    }
}

/// The texts of `o`, none or one.
pub open spec fn some_of(o: Option<Seq<char>>) -> Seq<Seq<char>> {
    match o {
        Some(t) => seq![t],
        None => Seq::empty(),
    }
}

/// The notes of the subtasks that have some, in order.
pub open spec fn notes_of(subs: Seq<(Seq<char>, Option<Seq<char>>)>) -> Seq<Seq<char>>
    decreases subs.len(),
{
    if subs.len() == 0 {
        Seq::empty()
    } else {
        notes_of(subs.drop_last()) + some_of(subs.last().1)
    }
}

pub open spec fn strs_view(v: Seq<&str>) -> Seq<Seq<char>> {
    v.map_values(|s: &str| s@)
}

fn lower_opt(o: Option<&str>) -> (r: Option<String>)
    ensures
        opt_text(r) == opt_lower(o),
{
    match o {
        Some(s) => Some(to_lowercase(s)),
        None => None,
    }
}

impl FoldedCandidate {
    /// Lowercases every field a condition can search.
    pub fn new(
        project_name: &str,
        list_name: &str,
        title: &str,
        notes: Option<&str>,
        subtasks: &[SubTaskCandidate],
        tags: &[&str],
    ) -> (r: Self)
        ensures
            r@.project_name == lowercase_text(project_name@),
            r@.list_name == lowercase_text(list_name@),
            r@.title == lowercase_text(title@),
            r@.notes == opt_lower(notes),
            r@.tags == tags@.map_values(|t: &str| lowercase_text(t@)),
            r@.subtasks == subtasks@.map_values(
                |s: SubTaskCandidate| (lowercase_text(s.title@), opt_lower(s.notes)),
            ),
    {
        let mut folded_subtasks: Vec<(String, Option<String>)> = Vec::new();
        let mut i: usize = 0;
        while i < subtasks.len()
            invariant
                i <= subtasks@.len(),
                folded_subtasks@.len() == i,
                forall|k: int| 0 <= k < i ==> (#[trigger] folded_subtasks@[k]).0@ == lowercase_text(subtasks@[k].title@)
                    && opt_text(folded_subtasks@[k].1) == opt_lower(subtasks@[k].notes),
            decreases subtasks@.len() - i,
        {
            let sub = subtasks[i];
            folded_subtasks.push((to_lowercase(sub.title), lower_opt(sub.notes)));
            i = i + 1;
        }
        let mut folded_tags: Vec<String> = Vec::new();
        let mut j: usize = 0;
        while j < tags.len()
            invariant
                j <= tags@.len(),
                folded_tags@.len() == j,
                forall|k: int| 0 <= k < j ==> (#[trigger] folded_tags@[k])@ == lowercase_text(tags@[k]@),
            decreases tags@.len() - j,
        {
            folded_tags.push(to_lowercase(tags[j]));
            j = j + 1;
        }
        let r = FoldedCandidate {
            project_name: to_lowercase(project_name),
            list_name: to_lowercase(list_name),
            title: to_lowercase(title),
            tags: folded_tags,
            notes: lower_opt(notes),
            subtasks: folded_subtasks,
        };
        assert(r@.tags =~= tags@.map_values(|t: &str| lowercase_text(t@)));
        assert(r@.subtasks =~= subtasks@.map_values(
            |s: SubTaskCandidate| (lowercase_text(s.title@), opt_lower(s.notes)),
        ));
        r
    }

    pub fn project_name(&self) -> (r: &str)
        ensures
            r@ == self@.project_name,
    {
        self.project_name.as_str()
    }

    pub fn list_name(&self) -> (r: &str)
        ensures
            r@ == self@.list_name,
    {
        self.list_name.as_str()
    }

    pub fn title(&self) -> (r: &str)
        ensures
            r@ == self@.title,
    {
        self.title.as_str()
    }

    pub fn tags(&self) -> (r: &[String])
        ensures
            r@.map_values(|t: String| t@) == self@.tags,
    {
        self.tags.as_slice()
    }

    /// The task's notes, none or one.
    pub fn notes(&self) -> (r: Vec<&str>)
        ensures
            strs_view(r@) == some_of(self@.notes),
    {
        match &self.notes {
            Some(n) => {
                let r = vec![n.as_str()];
                assert(strs_view(r@) =~= some_of(self@.notes));
                r
            },
            None => {
                let r: Vec<&str> = Vec::new();
                assert(strs_view(r@) =~= some_of(self@.notes));
                r
            },
        }
    }

    /// The subtasks' titles, in order.
    pub fn subtask_titles(&self) -> (r: Vec<&str>)
        ensures
            strs_view(r@) == self@.subtasks.map_values(|p: (Seq<char>, Option<Seq<char>>)| p.0),
    {
        let mut out: Vec<&str> = Vec::new();
        let mut i: usize = 0;
        while i < self.subtasks.len()
            invariant
                i <= self.subtasks@.len(),
                out@.len() == i,
                forall|k: int| 0 <= k < i ==> (#[trigger] out@[k])@ == self.subtasks@[k].0@,
            decreases self.subtasks@.len() - i,
        {
            out.push(self.subtasks[i].0.as_str());
            i = i + 1;
        }
        assert(strs_view(out@) =~= self@.subtasks.map_values(|p: (Seq<char>, Option<Seq<char>>)| p.0));
        out
    }

    /// The notes of the subtasks that have some, in order.
    pub fn subtask_notes(&self) -> (r: Vec<&str>)
        ensures
            strs_view(r@) == notes_of(self@.subtasks),
    {
        let ghost subs = self@.subtasks;
        let mut out: Vec<&str> = Vec::new();
        let mut i: usize = 0;
        assert(subs.take(0) =~= Seq::<(Seq<char>, Option<Seq<char>>)>::empty());
        assert(strs_view(out@) =~= Seq::<Seq<char>>::empty());
        while i < self.subtasks.len()
            invariant
                subs == self@.subtasks,
                i <= self.subtasks@.len(),
                strs_view(out@) == notes_of(subs.take(i as int)),
            decreases self.subtasks@.len() - i,
        {
            proof {
                assert(subs.take(i + 1).drop_last() =~= subs.take(i as int));
                assert(subs.take(i + 1).last() == (self.subtasks@[i as int].0@, opt_text(self.subtasks@[i as int].1)));
            }
            match &self.subtasks[i].1 {
                Some(n) => {
                    out.push(n.as_str());
                },
                None => {},
            }
            assert(strs_view(out@) =~= notes_of(subs.take(i + 1)));
            i = i + 1;
        }
        assert(subs.take(self.subtasks@.len() as int) =~= subs);
        out
    }

    /// The fields a bare keyword searches: the task and its subtasks, both the
    /// title and the notes of each.
    pub fn free_text(&self) -> (r: Vec<&str>)
        ensures
            strs_view(r@) == seq![self@.title] + some_of(self@.notes) + self@.subtasks.map_values(
                |p: (Seq<char>, Option<Seq<char>>)| p.0,
            ) + notes_of(self@.subtasks),
    {
        let mut values = vec![self.title.as_str()];
        let mut notes = self.notes();
        let mut titles = self.subtask_titles();
        let mut sub_notes = self.subtask_notes();
        let ghost a = strs_view(values@);
        let ghost b = strs_view(notes@);
        let ghost c = strs_view(titles@);
        let ghost d = strs_view(sub_notes@);
        values.append(&mut notes);
        values.append(&mut titles);
        values.append(&mut sub_notes);
        assert(a =~= seq![self@.title]);
        assert(strs_view(values@) =~= a + b + c + d);
        values
    }
}

} // verus!
