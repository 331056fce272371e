//! A parsed query with its names looked up, ready to test tasks against.
//!
//! Tasks and subtasks are evaluated as separate units against the whole query.
//! A subtask inherits where its parent lives, its parent's tags and its
//! parent's text, but not its due date, state or assignees.

use vstd::prelude::*;
use crate::search::document::seg_text;
use crate::search::lexer::strings_view;
use crate::search::parser::{exprs_view, lemma_exprs_view_index, Expr, ExprView, Parsed, Term, TermView};
use crate::search::resolve::{refs_view, resolved, ListEntry, NameIndex, ProjectEntry, Reference, ReferenceView, UserEntry};
use crate::search::document::copy_references;
use crate::search::vocabulary::{status_matches, TextField, UnitStatus};
use crate::search::due::{spec_keyword, DueKeyword};
use crate::search::normalize::{fold, folded};
use crate::text::{contains_text, has_substring, starts_with, starts_with_text, same_text};

verus! {

/// A condition with its names looked up.
#[derive(Debug)]
enum Node {
    And(Vec<Node>),
    Or(Vec<Node>),
    Not(Box<Node>),
    Leaf(Leaf),
}

#[derive(Debug)]
enum Leaf {
    Text(String),
    Tag(String),
    Field(TextField, String),
    AnyOf(Vec<Reference>),
    /// Contributes nothing: neither narrows nor widens the result.
    Ignore,
}

/// The value of a prepared condition.
pub enum NodeView {
    And(Seq<NodeView>),
    Or(Seq<NodeView>),
    Not(Box<NodeView>),
    Leaf(LeafView),
}

/// The value of a prepared term.
pub enum LeafView {
    Text(Seq<char>),
    Tag(Seq<char>),
    Field(TextField, Seq<char>),
    AnyOf(Seq<ReferenceView>),
    Ignore,
}

spec fn leaf_view(l: Leaf) -> LeafView {
    match l {
        Leaf::Text(s) => LeafView::Text(s@),
        Leaf::Tag(s) => LeafView::Tag(s@),
        Leaf::Field(f, s) => LeafView::Field(f, s@),
        Leaf::AnyOf(c) => LeafView::AnyOf(refs_view(c@)),
        Leaf::Ignore => LeafView::Ignore,
    }
}

spec fn node_view(n: Node) -> NodeView
    decreases n,
{
    match n {
        Node::And(items) => NodeView::And(nodes_view(items@)),
        Node::Or(items) => NodeView::Or(nodes_view(items@)),
        Node::Not(inner) => NodeView::Not(Box::new(node_view(*inner))),
        Node::Leaf(l) => NodeView::Leaf(leaf_view(l)),
    }
}

spec fn nodes_view(s: Seq<Node>) -> Seq<NodeView>
    decreases s,
{
    if s.len() == 0 {
        Seq::empty()
    } else {
        nodes_view(s.subrange(0, s.len() - 1)).push(node_view(s[s.len() - 1]))
    }
}

proof fn lemma_nodes_view_push(s: Seq<Node>, x: Node)
    ensures
        nodes_view(s.push(x)) == nodes_view(s).push(node_view(x)),
{
    assert(s.push(x).subrange(0, s.len() as int) =~= s);
}

/// The prepared form of a term: a name becomes what it names, or nothing.
pub open spec fn leaf_of(term: TermView, ps: Seq<ProjectEntry>, ls: Seq<ListEntry>, us: Seq<UserEntry>) -> LeafView {
    match term {
        TermView::Text(v) => LeafView::Text(v),
        TermView::Tag(v) => LeafView::Tag(v),
        TermView::Field(f, v) => LeafView::Field(f, v),
        TermView::Ref(r) => LeafView::AnyOf(seq![r]),
        TermView::AnyOf(c) => LeafView::AnyOf(c),
        TermView::Ignore => LeafView::Ignore,
        TermView::Name(w) => {
            let c = resolved(ps, ls, us, w);
            if c.len() == 0 {
                LeafView::Ignore
            } else {
                LeafView::AnyOf(c)
            }
        },
    }
}

/// The prepared form of a condition tree.
pub open spec fn node_of(e: ExprView, ps: Seq<ProjectEntry>, ls: Seq<ListEntry>, us: Seq<UserEntry>) -> NodeView
    decreases e,
{
    match e {
        ExprView::And(items) => NodeView::And(nodes_of(items, ps, ls, us)),
        ExprView::Or(items) => NodeView::Or(nodes_of(items, ps, ls, us)),
        ExprView::Not(inner) => NodeView::Not(Box::new(node_of(*inner, ps, ls, us))),
        ExprView::Term(node) => NodeView::Leaf(leaf_of(node.term, ps, ls, us)),
    }
}

pub open spec fn nodes_of(items: Seq<ExprView>, ps: Seq<ProjectEntry>, ls: Seq<ListEntry>, us: Seq<UserEntry>) -> Seq<NodeView>
    decreases items,
{
    if items.len() == 0 {
        Seq::empty()
    } else {
        nodes_of(items.subrange(0, items.len() - 1), ps, ls, us).push(
            node_of(items[items.len() - 1], ps, ls, us),
        )
    }
}

/// Whether a word spanning `start..end` holds the edit at `active`.
pub open spec fn covers(start: int, end: int, active: Option<usize>) -> bool {
    match active {
        Some(at) => start <= at && at <= end,
        None => false,
    }
}

/// The `@` words of a tree that name nothing, as typed, in order; the word
/// being typed at `active` is not reported.
pub open spec fn unresolved_in(
    e: ExprView,
    ps: Seq<ProjectEntry>,
    ls: Seq<ListEntry>,
    us: Seq<UserEntry>,
    active: Option<usize>,
) -> Seq<Seq<char>>
    decreases e,
{
    match e {
        ExprView::And(items) => unresolved_list(items, ps, ls, us, active),
        ExprView::Or(items) => unresolved_list(items, ps, ls, us, active),
        ExprView::Not(inner) => unresolved_in(*inner, ps, ls, us, active),
        ExprView::Term(node) => match node.term {
            TermView::Name(w) => if resolved(ps, ls, us, w).len() == 0 && !covers(node.start, node.end, active) {
                seq![seg_text(node.source)]
            } else {
                Seq::empty()
            },
            _ => Seq::empty(),
        },
    }
}

pub open spec fn unresolved_list(
    items: Seq<ExprView>,
    ps: Seq<ProjectEntry>,
    ls: Seq<ListEntry>,
    us: Seq<UserEntry>,
    active: Option<usize>,
) -> Seq<Seq<char>>
    decreases items,
{
    if items.len() == 0 {
        Seq::empty()
    } else {
        unresolved_list(items.subrange(0, items.len() - 1), ps, ls, us, active) + unresolved_in(
            items[items.len() - 1],
            ps,
            ls,
            us,
            active,
        )
    }
}

/// Whether a prepared condition can never narrow anything.
pub open spec fn is_neutral(n: NodeView) -> bool
    decreases n,
{
    match n {
        NodeView::And(items) => all_neutral(items),
        NodeView::Or(items) => all_neutral(items),
        NodeView::Not(inner) => is_neutral(*inner),
        NodeView::Leaf(l) => l is Ignore,
    }
}

pub open spec fn all_neutral(items: Seq<NodeView>) -> bool
    decreases items,
{
    if items.len() == 0 {
        true
    } else {
        all_neutral(items.subrange(0, items.len() - 1)) && is_neutral(items[items.len() - 1])
    }
}

/// A query with every name looked up, ready to test units against.
#[derive(Debug)]
pub struct Prepared {
    expr: Option<Node>,
    /// `@` words that name nothing, as typed.
    pub unresolved: Vec<String>,
}

impl Prepared {
    /// The prepared condition, if the query has one.
    pub closed spec fn tree(self) -> Option<NodeView> {
        match self.expr {
            Some(n) => Some(node_view(n)),
            None => None,
        }
    }

    /// The `@` words that name nothing, as typed.
    pub closed spec fn unresolved_words(self) -> Seq<Seq<char>> {
        strings_view(self.unresolved@)
    }
}

impl Default for Prepared {
    fn default() -> (r: Self)
        ensures
            r.tree() is None,
            r.unresolved_words().len() == 0,
    {
        Prepared { expr: None, unresolved: Vec::new() }
    }
}

fn copy_leaf(l: &Leaf) -> (r: Leaf)
    ensures
        leaf_view(r) == leaf_view(*l),
{
    match l {
        Leaf::Text(s) => Leaf::Text(s.clone()),
        Leaf::Tag(s) => Leaf::Tag(s.clone()),
        Leaf::Field(f, s) => Leaf::Field(*f, s.clone()),
        Leaf::AnyOf(c) => Leaf::AnyOf(copy_references(c)),
        Leaf::Ignore => Leaf::Ignore,
    }
}

fn copy_node(n: &Node) -> (r: Node)
    ensures
        node_view(r) == node_view(*n),
    decreases n,
{
    match n {
        Node::And(items) => Node::And(copy_nodes(items)),
        Node::Or(items) => Node::Or(copy_nodes(items)),
        Node::Not(inner) => Node::Not(Box::new(copy_node(inner))),
        Node::Leaf(l) => Node::Leaf(copy_leaf(l)),
    }
}

fn copy_nodes(items: &Vec<Node>) -> (r: Vec<Node>)
    ensures
        nodes_view(r@) == nodes_view(items@),
    decreases items,
{
    let mut out: Vec<Node> = Vec::new();
    let mut i: usize = 0;
    while i < items.len()
        invariant
            i <= items@.len(),
            nodes_view(out@) == nodes_view(items@.subrange(0, i as int)),
        decreases items@.len() - i,
    {
        proof {
            assert(decreases_to!(items => items@[i as int]));
        }
        let x = copy_node(&items[i]);
        proof {
            lemma_nodes_view_push(out@, x);
            lemma_nodes_view_push(items@.subrange(0, i as int), items@[i as int]);
            assert(items@.subrange(0, i as int).push(items@[i as int]) =~= items@.subrange(0, i + 1));
        }
        out.push(x);
        i = i + 1;
    }
    assert(items@.subrange(0, items@.len() as int) =~= items@);
    out
}

impl Clone for Prepared {
    fn clone(&self) -> (r: Self)
        ensures
            r.tree() == self.tree(),
            r.unresolved_words() == self.unresolved_words(),
    {
        let expr = match &self.expr {
            Some(n) => Some(copy_node(n)),
            None => None,
        };
        let mut unresolved: Vec<String> = Vec::new();
        let mut i: usize = 0;
        while i < self.unresolved.len()
            invariant
                i <= self.unresolved@.len(),
                unresolved@.len() == i,
                forall|k: int| 0 <= k < i ==> (#[trigger] unresolved@[k])@ == self.unresolved@[k]@,
            decreases self.unresolved@.len() - i,
        {
            unresolved.push(self.unresolved[i].clone());
            i = i + 1;
        }
        assert(strings_view(unresolved@) =~= strings_view(self.unresolved@));
        Prepared { expr, unresolved }
    }
}

fn push_string(v: &mut Vec<String>, s: String)
    ensures
        strings_view(final(v)@) == strings_view(old(v)@).push(s@),
{
    v.push(s);
    assert(strings_view(v@) =~= strings_view(old(v)@).push(s@));
}

fn prepare(expr: &Expr, index: &NameIndex, active: Option<usize>, unresolved: &mut Vec<String>) -> (r: Node)
    ensures
        node_view(r) == node_of(expr@, index.project_entries(), index.list_entries(), index.user_entries()),
        strings_view(final(unresolved)@) == strings_view(old(unresolved)@) + unresolved_in(
            expr@,
            index.project_entries(),
            index.list_entries(),
            index.user_entries(),
            active,
        ),
    decreases expr, 0nat,
{
    let ghost ps = index.project_entries();
    let ghost ls = index.list_entries();
    let ghost us = index.user_entries();
    match expr {
        Expr::And(items) => Node::And(prepare_all(items, index, active, unresolved)),
        Expr::Or(items) => Node::Or(prepare_all(items, index, active, unresolved)),
        Expr::Not(inner) => Node::Not(Box::new(prepare(inner, index, active, unresolved))),
        Expr::Term(node) => {
            let leaf = match &node.term {
                Term::Text(value) => Leaf::Text(value.clone()),
                Term::Tag(value) => Leaf::Tag(value.clone()),
                Term::Field(field, value) => Leaf::Field(*field, value.clone()),
                Term::Ref(reference) => {
                    let one = vec![reference.clone()];
                    assert(refs_view(one@) =~= seq![reference@]);
                    Leaf::AnyOf(one)
                },
                Term::AnyOf(candidates) => Leaf::AnyOf(copy_references(candidates)),
                Term::Ignore => Leaf::Ignore,
                Term::Name(word) => {
                    let candidates = index.resolve(word);
                    if candidates.len() == 0 {
                        let at_edit = match active {
                            Some(at) => node.span.start <= at && at <= node.span.end,
                            None => false,
                        };
                        if !at_edit {
                            push_string(unresolved, String::from_str(node.source.text()));
                        }
                        Leaf::Ignore
                    } else {
                        Leaf::AnyOf(candidates)
                    }
                },
            };
            assert(strings_view(unresolved@) =~= strings_view(old(unresolved)@) + unresolved_in(expr@, ps, ls, us, active));
            Node::Leaf(leaf)
        },
    }
}

fn prepare_all(items: &Vec<Expr>, index: &NameIndex, active: Option<usize>, unresolved: &mut Vec<String>) -> (r: Vec<Node>)
    ensures
        nodes_view(r@) == nodes_of(exprs_view(items@), index.project_entries(), index.list_entries(), index.user_entries()),
        strings_view(final(unresolved)@) == strings_view(old(unresolved)@) + unresolved_list(
            exprs_view(items@),
            index.project_entries(),
            index.list_entries(),
            index.user_entries(),
            active,
        ),
    decreases items, 1nat,
{
    let ghost ps = index.project_entries();
    let ghost ls = index.list_entries();
    let ghost us = index.user_entries();
    proof {
        lemma_exprs_view_index(items@);
    }
    let ghost all = exprs_view(items@);
    let mut out: Vec<Node> = Vec::new();
    let mut i: usize = 0;
    assert(all.take(0) =~= Seq::<ExprView>::empty());
    while i < items.len()
        invariant
            ps == index.project_entries(),
            ls == index.list_entries(),
            us == index.user_entries(),
            all == exprs_view(items@),
            all.len() == items@.len(),
            forall|j: int| 0 <= j < items@.len() ==> #[trigger] all[j] == items@[j]@,
            i <= items@.len(),
            nodes_view(out@) == nodes_of(all.take(i as int), ps, ls, us),
            strings_view(unresolved@) == strings_view(old(unresolved)@) + unresolved_list(all.take(i as int), ps, ls, us, active),
        decreases items@.len() - i,
    {
        proof {
            assert(decreases_to!(items => items@[i as int]));
        }
        let x = prepare(&items[i], index, active, unresolved);
        proof {
            lemma_nodes_view_push(out@, x);
            let next = all.take(i + 1);
            assert(next.subrange(0, next.len() - 1) =~= all.take(i as int));
            assert(next[next.len() - 1] == items@[i as int]@);
        }
        out.push(x);
        assert(strings_view(unresolved@) =~= strings_view(old(unresolved)@) + unresolved_list(all.take(i + 1), ps, ls, us, active));
        i = i + 1;
    }
    assert(all.take(items@.len() as int) =~= all);
    out
}

fn neutral(n: &Node) -> (r: bool)
    ensures
        r == is_neutral(node_view(*n)),
    decreases n,
{
    match n {
        Node::And(items) => all_neutral_exec(items),
        Node::Or(items) => all_neutral_exec(items),
        Node::Not(inner) => neutral(inner),
        Node::Leaf(l) => match l {
            Leaf::Ignore => true,
            _ => false,
        },
    }
}

fn all_neutral_exec(items: &Vec<Node>) -> (r: bool)
    ensures
        r == all_neutral(nodes_view(items@)),
    decreases items,
{
    let mut i: usize = 0;
    let mut all = true;
    while i < items.len()
        invariant
            i <= items@.len(),
            all == all_neutral(nodes_view(items@.subrange(0, i as int))),
        decreases items@.len() - i,
    {
        proof {
            assert(decreases_to!(items => items@[i as int]));
        }
        let one = neutral(&items[i]);
        proof {
            lemma_nodes_view_push(items@.subrange(0, i as int), items@[i as int]);
            assert(items@.subrange(0, i as int).push(items@[i as int]) =~= items@.subrange(0, i + 1));
            let next = nodes_view(items@.subrange(0, i + 1));
            assert(next.subrange(0, next.len() - 1) =~= nodes_view(items@.subrange(0, i as int)));
        }
        all = all && one;
        i = i + 1;
    }
    assert(items@.subrange(0, items@.len() as int) =~= items@);
    all
}

impl Prepared {
    /// Looks up the names left in `parsed`.
    ///
    /// A word being typed at `active` narrows by whatever it already names
    /// exactly and is otherwise ignored, so the list does not empty mid-word.
    pub fn new(parsed: &Parsed, index: &NameIndex, active: Option<usize>) -> (r: Self)
        ensures
            r.tree() == match parsed@.expr {
                Some(e) => Some(node_of(e, index.project_entries(), index.list_entries(), index.user_entries())),
                None => None,
            },
            r.unresolved_words() == match parsed@.expr {
                Some(e) => unresolved_in(e, index.project_entries(), index.list_entries(), index.user_entries(), active),
                None => Seq::empty(),
            },
    {
        let mut unresolved: Vec<String> = Vec::new();
        assert(strings_view(unresolved@) =~= Seq::<Seq<char>>::empty());
        let expr = match &parsed.expr {
            Some(e) => {
                let n = prepare(e, index, active, &mut unresolved);
                assert(strings_view(unresolved@) =~= unresolved_in(e@, index.project_entries(), index.list_entries(), index.user_entries(), active));
                Some(n)
            },
            None => None,
        };
        Prepared { expr, unresolved }
    }

    /// A copy of the `@` words that name nothing, as typed.
    pub fn unresolved_names(&self) -> (r: Vec<String>)
        ensures
            strings_view(r@) == self.unresolved_words(),
    {
        let mut out: Vec<String> = Vec::new();
        let mut i: usize = 0;
        while i < self.unresolved.len()
            invariant
                i <= self.unresolved@.len(),
                out@.len() == i,
                forall|k: int| 0 <= k < i ==> (#[trigger] out@[k])@ == self.unresolved@[k]@,
            decreases self.unresolved@.len() - i,
        {
            out.push(self.unresolved[i].clone());
            i = i + 1;
        }
        assert(strings_view(out@) =~= strings_view(self.unresolved@));
        out
    }

    /// Whether the query has no condition at all.
    pub fn is_empty(&self) -> (r: bool)
        ensures
            r == match self.tree() {
                Some(n) => is_neutral(n),
                None => true,
            },
    {
        match &self.expr {
            Some(n) => neutral(n),
            None => true,
        }
    }

    /// A query consisting of one reference, as a sidebar button would write it.
    pub fn single(reference: Reference) -> (r: Self)
        ensures
            r.tree() == Some(NodeView::Leaf(LeafView::AnyOf(seq![reference@]))),
            r.unresolved_words().len() == 0,
    {
        let one = vec![reference];
        assert(refs_view(one@) =~= seq![one@[0]@]);
        Prepared { expr: Some(Node::Leaf(Leaf::AnyOf(one))), unresolved: Vec::new() }
    }
}


/// A task's or subtask's title and notes.
#[derive(Debug, Clone, Copy)]
pub struct UnitText<'a> {
    pub title: &'a str,
    pub notes: Option<&'a str>,
}

/// A task or a subtask, borrowed from the loaded tree.
///
/// `due` is the due instant in nanoseconds since the Unix epoch, UTC.
#[derive(Debug, Clone, Copy)]
pub struct SearchUnit<'a> {
    pub project_id: &'a str,
    pub list_id: &'a str,
    pub title: &'a str,
    pub notes: Option<&'a str>,
    /// For a subtask: its parent task's title and notes.
    pub parent: Option<UnitText<'a>>,
    /// For a task: its subtasks' titles and notes, searched by `@subtask:`.
    pub children: &'a [UnitText<'a>],
    pub due: Option<i128>,
    pub status: UnitStatus,
    /// `UserId`s of the assignees.
    pub assignees: &'a [String],
    /// Tag names. A subtask's include its parent's.
    pub tags: &'a [&'a str],
}

/// When the query is evaluated: the current instant, and where each due
/// horizon of the query ends (`None` when it has no end), both in
/// nanoseconds since the Unix epoch, UTC.
#[derive(Debug, Clone)]
pub struct EvalContext {
    pub now: i128,
    pub horizons: Vec<(DueKeyword, Option<i128>)>,
}

/// The folded text of `o`, none or one.
pub open spec fn folded_opt(o: Option<&str>) -> Seq<Seq<char>> {
    match o {
        Some(t) => seq![folded(t@)],
        None => Seq::empty(),
    }
}

/// Title then notes, folded.
pub open spec fn text_of(title: &str, notes: Option<&str>) -> Seq<Seq<char>> {
    seq![folded(title@)] + folded_opt(notes)
}

/// The unit's own title then notes, folded.
pub open spec fn own_texts(u: SearchUnit) -> Seq<Seq<char>> {
    text_of(u.title, u.notes)
}

/// The parent task's title then notes, folded; empty for a task.
pub open spec fn parent_texts(u: SearchUnit) -> Seq<Seq<char>> {
    match u.parent {
        Some(p) => text_of(p.title, p.notes),
        None => Seq::empty(),
    }
}

pub open spec fn child_titles(children: Seq<UnitText>) -> Seq<Seq<char>> {
    children.map_values(|c: UnitText| folded(c.title@))
}

/// The notes of the children that have some, folded.
pub open spec fn child_notes(children: Seq<UnitText>) -> Seq<Seq<char>>
    decreases children.len(),
{
    if children.len() == 0 {
        Seq::empty()
    } else {
        child_notes(children.drop_last()) + folded_opt(children.last().notes)
    }
}

pub open spec fn tag_texts(tags: Seq<&str>) -> Seq<Seq<char>> {
    tags.map_values(|t: &str| folded(t@))
}

/// Whether one of `values` contains `needle`.
pub open spec fn any_contains(values: Seq<Seq<char>>, needle: Seq<char>) -> bool {
    exists|i: int| 0 <= i < values.len() && #[trigger] has_substring(values[i], needle)
}

/// Whether one of `values` starts with `prefix`.
pub open spec fn any_starts(values: Seq<Seq<char>>, prefix: Seq<char>) -> bool {
    exists|i: int| 0 <= i < values.len() && #[trigger] starts_with(values[i], prefix)
}

/// The text a field condition searches. A subtask's task fields are its
/// parent's, and its subtask fields its own.
pub open spec fn field_texts(u: SearchUnit, field: TextField) -> Seq<Seq<char>> {
    let own = own_texts(u);
    let parent = parent_texts(u);
    if u.parent is Some {
        match field {
            TextField::Task => parent.take(1),
            TextField::Note => parent.skip(1),
            TextField::Subtask => own.take(1),
            TextField::SubtaskNote => own.skip(1),
        }
    } else {
        match field {
            TextField::Task => own.take(1),
            TextField::Note => own.skip(1),
            TextField::Subtask => child_titles(u.children@),
            TextField::SubtaskNote => child_notes(u.children@),
        }
    }
}

/// The end of `k`'s horizon in `hs`: `Some(None)` when it has no end, `None`
/// when `hs` does not give it.
pub open spec fn horizon_of(hs: Seq<(DueKeyword, Option<i128>)>, k: DueKeyword) -> Option<Option<i128>>
    decreases hs.len(),
{
    if hs.len() == 0 {
        None
    } else if hs[0].0 == k {
        Some(hs[0].1)
    } else {
        horizon_of(hs.drop_first(), k)
    }
}

/// Whether a due date matches a keyword: an unfinished task past its date is
/// overdue, and a date matches a horizon when it is not after its end. A task
/// without a due date, or a horizon the context does not give, matches nothing.
pub open spec fn due_hit(k: DueKeyword, due: Option<i128>, completed: bool, now: i128, hs: Seq<(DueKeyword, Option<i128>)>) -> bool {
    match due {
        None => false,
        Some(d) => match k {
            DueKeyword::Overdue => !completed && d < now,
            _ => match horizon_of(hs, k) {
                Some(Some(end)) => d <= end,
                Some(None) => true,
                None => false,
            },
        },
    }
}

/// Whether `id` is one of `ids`.
pub open spec fn has_id(ids: Seq<String>, id: Seq<char>) -> bool {
    exists|i: int| 0 <= i < ids.len() && #[trigger] ids[i]@ == id
}

/// Whether the unit is one a reference names.
pub open spec fn ref_hit(r: ReferenceView, u: SearchUnit, ctx_now: i128, hs: Seq<(DueKeyword, Option<i128>)>) -> bool {
    match r {
        ReferenceView::Due(spec) => due_hit(spec_keyword(spec), u.due, u.status == UnitStatus::Completed, ctx_now, hs),
        ReferenceView::Status(s) => status_matches(s, u.status),
        ReferenceView::Project(id) => u.project_id@ == id,
        ReferenceView::List(id) => u.list_id@ == id,
        ReferenceView::User(id) => has_id(u.assignees@, id),
    }
}

/// Whether the unit is one of those `refs` name.
pub open spec fn any_ref_hit(refs: Seq<ReferenceView>, u: SearchUnit, now: i128, hs: Seq<(DueKeyword, Option<i128>)>) -> bool {
    exists|i: int| 0 <= i < refs.len() && #[trigger] ref_hit(refs[i], u, now, hs)
}

/// What a term says of a unit: `None` when it holds no condition.
pub open spec fn leaf_eval(l: LeafView, u: SearchUnit, now: i128, hs: Seq<(DueKeyword, Option<i128>)>) -> Option<bool> {
    match l {
        LeafView::Ignore => None,
        LeafView::Text(needle) => Some(any_contains(own_texts(u), needle) || any_contains(parent_texts(u), needle)),
        LeafView::Tag(prefix) => Some(any_starts(tag_texts(u.tags@), prefix)),
        LeafView::Field(field, needle) => Some(any_contains(field_texts(u, field), needle)),
        LeafView::AnyOf(refs) => Some(any_ref_hit(refs, u, now, hs)),
    }
}

/// A unit's searchable texts, folded once.
struct FoldedUnit {
    own: Vec<String>,
    parent: Vec<String>,
    child_titles: Vec<String>,
    child_notes: Vec<String>,
    tags: Vec<String>,
}

spec fn folded_unit_holds(f: FoldedUnit, u: SearchUnit) -> bool {
    &&& strings_view(f.own@) == own_texts(u)
    &&& strings_view(f.parent@) == parent_texts(u)
    &&& strings_view(f.child_titles@) == child_titles(u.children@)
    &&& strings_view(f.child_notes@) == child_notes(u.children@)
    &&& strings_view(f.tags@) == tag_texts(u.tags@)
}

fn fold_text(title: &str, notes: Option<&str>) -> (r: Vec<String>)
    ensures
        strings_view(r@) == text_of(title, notes),
{
    let mut values: Vec<String> = Vec::new();
    values.push(fold(title));
    match notes {
        Some(n) => {
            values.push(fold(n));
        },
        None => {},
    }
    assert(strings_view(values@) =~= text_of(title, notes));
    values
}

fn fold_unit(u: &SearchUnit) -> (r: FoldedUnit)
    ensures
        folded_unit_holds(r, *u),
{
    let own = fold_text(u.title, u.notes);
    let parent = match u.parent {
        Some(p) => fold_text(p.title, p.notes),
        None => {
            let none: Vec<String> = Vec::new();
            assert(strings_view(none@) =~= parent_texts(*u));
            none
        },
    };
    let mut child_titles_v: Vec<String> = Vec::new();
    let mut child_notes_v: Vec<String> = Vec::new();
    let ghost kids = u.children@;
    let mut i: usize = 0;
    assert(kids.take(0) =~= Seq::<UnitText>::empty());
    assert(strings_view(child_notes_v@) =~= Seq::<Seq<char>>::empty());
    while i < u.children.len()
        invariant
            kids == u.children@,
            i <= kids.len(),
            child_titles_v@.len() == i,
            forall|k: int| 0 <= k < i ==> (#[trigger] child_titles_v@[k])@ == folded(kids[k].title@),
            strings_view(child_notes_v@) == child_notes(kids.take(i as int)),
        decreases kids.len() - i,
    {
        let child = u.children[i];
        child_titles_v.push(fold(child.title));
        proof {
            assert(kids.take(i + 1).drop_last() =~= kids.take(i as int));
        }
        let ghost before = strings_view(child_notes_v@);
        match child.notes {
            Some(n) => {
                child_notes_v.push(fold(n));
                assert(strings_view(child_notes_v@) =~= before + folded_opt(child.notes));
            },
            None => {
                assert(strings_view(child_notes_v@) =~= before + folded_opt(child.notes));
            },
        }
        i = i + 1;
    }
    assert(kids.take(kids.len() as int) =~= kids);
    assert(strings_view(child_titles_v@) =~= child_titles(kids));
    let mut tags: Vec<String> = Vec::new();
    let mut j: usize = 0;
    while j < u.tags.len()
        invariant
            j <= u.tags@.len(),
            tags@.len() == j,
            forall|k: int| 0 <= k < j ==> (#[trigger] tags@[k])@ == folded(u.tags@[k]@),
        decreases u.tags@.len() - j,
    {
        tags.push(fold(u.tags[j]));
        j = j + 1;
    }
    assert(strings_view(tags@) =~= tag_texts(u.tags@));
    FoldedUnit { own, parent, child_titles: child_titles_v, child_notes: child_notes_v, tags }
}

fn contains_in(values: &[String], from: usize, to: usize, needle: &str) -> (r: bool)
    requires
        from <= to <= values@.len(),
    ensures
        r == any_contains(strings_view(values@).subrange(from as int, to as int), needle@),
{
    let ghost all = strings_view(values@).subrange(from as int, to as int);
    let mut i = from;
    while i < to
        invariant
            from <= i <= to <= values@.len(),
            all == strings_view(values@).subrange(from as int, to as int),
            forall|k: int| 0 <= k < i - from ==> !#[trigger] has_substring(all[k], needle@),
        decreases to - i,
    {
        if contains_text(values[i].as_str(), needle) {
            assert(has_substring(all[i - from], needle@));
            return true;
        }
        i = i + 1;
    }
    false
}

fn contains_all(values: &[String], needle: &str) -> (r: bool)
    ensures
        r == any_contains(strings_view(values@), needle@),
{
    assert(strings_view(values@).subrange(0, values@.len() as int) =~= strings_view(values@));
    contains_in(values, 0, values.len(), needle)
}

fn starts_any(values: &[String], prefix: &str) -> (r: bool)
    ensures
        r == any_starts(strings_view(values@), prefix@),
{
    let ghost all = strings_view(values@);
    let mut i: usize = 0;
    while i < values.len()
        invariant
            i <= values@.len(),
            all == strings_view(values@),
            forall|k: int| 0 <= k < i ==> !#[trigger] starts_with(all[k], prefix@),
        decreases values@.len() - i,
    {
        if starts_with_text(values[i].as_str(), prefix) {
            assert(starts_with(all[i as int], prefix@));
            return true;
        }
        i = i + 1;
    }
    false
}

fn field_contains(f: &FoldedUnit, u: &SearchUnit, field: TextField, needle: &str) -> (r: bool)
    requires
        folded_unit_holds(*f, *u),
    ensures
        r == any_contains(field_texts(*u, field), needle@),
{
    let own_len = f.own.len();
    let parent_len = f.parent.len();
    proof {
        assert(strings_view(f.own@).len() == own_len);
        assert(own_texts(*u).len() >= 1);
    }
    if u.parent.is_some() {
        proof {
            assert(parent_texts(*u).len() >= 1);
        }
        match field {
            TextField::Task => {
                assert(strings_view(f.parent@).subrange(0, 1) =~= parent_texts(*u).take(1));
                contains_in(f.parent.as_slice(), 0, 1, needle)
            },
            TextField::Note => {
                assert(strings_view(f.parent@).subrange(1, parent_len as int) =~= parent_texts(*u).skip(1));
                contains_in(f.parent.as_slice(), 1, parent_len, needle)
            },
            TextField::Subtask => {
                assert(strings_view(f.own@).subrange(0, 1) =~= own_texts(*u).take(1));
                contains_in(f.own.as_slice(), 0, 1, needle)
            },
            TextField::SubtaskNote => {
                assert(strings_view(f.own@).subrange(1, own_len as int) =~= own_texts(*u).skip(1));
                contains_in(f.own.as_slice(), 1, own_len, needle)
            },
        }
    } else {
        match field {
            TextField::Task => {
                assert(strings_view(f.own@).subrange(0, 1) =~= own_texts(*u).take(1));
                contains_in(f.own.as_slice(), 0, 1, needle)
            },
            TextField::Note => {
                assert(strings_view(f.own@).subrange(1, own_len as int) =~= own_texts(*u).skip(1));
                contains_in(f.own.as_slice(), 1, own_len, needle)
            },
            TextField::Subtask => contains_all(f.child_titles.as_slice(), needle),
            TextField::SubtaskNote => contains_all(f.child_notes.as_slice(), needle),
        }
    }
}

fn horizon(hs: &Vec<(DueKeyword, Option<i128>)>, k: DueKeyword) -> (r: Option<Option<i128>>)
    ensures
        r == horizon_of(hs@, k),
{
    let mut i: usize = 0;
    assert(hs@.skip(0) =~= hs@);
    while i < hs.len()
        invariant
            i <= hs@.len(),
            horizon_of(hs@, k) == horizon_of(hs@.skip(i as int), k),
        decreases hs@.len() - i,
    {
        assert(hs@.skip(i as int).drop_first() =~= hs@.skip(i + 1));
        if hs[i].0 == k {
            return Some(hs[i].1);
        }
        i = i + 1;
    }
    None
}

impl DueKeyword {
    /// Whether a task due at `due` matches this keyword at `now`, `end` being
    /// where its horizon ends (`None` when it has none). A task without a due
    /// date matches nothing, and a finished task is never overdue.
    pub fn matches(self, due: Option<i128>, completed: bool, now: i128, end: Option<i128>) -> (r: bool)
        ensures
            r == match due {
                None => false,
                Some(d) => match self {
                    DueKeyword::Overdue => !completed && d < now,
                    _ => match end {
                        Some(e) => d <= e,
                        None => true,
                    },
                },
            },
    {
        match due {
            None => false,
            Some(d) => match self {
                DueKeyword::Overdue => !completed && d < now,
                _ => match end {
                    Some(e) => d <= e,
                    None => true,
                },
            },
        }
    }
}

fn reference_matches(reference: &Reference, unit: &SearchUnit, context: &EvalContext) -> (r: bool)
    ensures
        r == ref_hit(reference@, *unit, context.now, context.horizons@),
{
    match reference {
        Reference::Due(spec) => {
            let k = spec.keyword();
            match k {
                DueKeyword::Overdue => k.matches(unit.due, unit.status == UnitStatus::Completed, context.now, None),
                _ => match horizon(&context.horizons, k) {
                    Some(end) => k.matches(unit.due, unit.status == UnitStatus::Completed, context.now, end),
                    None => false,
                },
            }
        },
        Reference::Status(status) => status.matches(unit.status),
        Reference::Project(id) => same_text(unit.project_id, id.as_str()),
        Reference::List(id) => same_text(unit.list_id, id.as_str()),
        Reference::User(id) => {
            let mut i: usize = 0;
            while i < unit.assignees.len()
                invariant
                    reference@ == ReferenceView::User(id@),
                    i <= unit.assignees@.len(),
                    forall|k: int| 0 <= k < i ==> !(#[trigger] unit.assignees@[k]@ == id@),
                decreases unit.assignees@.len() - i,
            {
                if same_text(unit.assignees[i].as_str(), id.as_str()) {
                    assert(unit.assignees@[i as int]@ == id@);
                    assert(has_id(unit.assignees@, id@));
                    return true;
                }
                i = i + 1;
            }
            false
        },
    }
}

fn leaf_matches(leaf: &Leaf, unit: &SearchUnit, f: &FoldedUnit, context: &EvalContext) -> (r: Option<bool>)
    requires
        folded_unit_holds(*f, *unit),
    ensures
        r == leaf_eval(leaf_view(*leaf), *unit, context.now, context.horizons@),
{
    match leaf {
        Leaf::Ignore => None,
        Leaf::Text(needle) => Some(contains_all(f.own.as_slice(), needle.as_str()) || contains_all(f.parent.as_slice(), needle.as_str())),
        Leaf::Tag(prefix) => Some(starts_any(f.tags.as_slice(), prefix.as_str())),
        Leaf::Field(field, needle) => Some(field_contains(f, unit, *field, needle.as_str())),
        Leaf::AnyOf(references) => {
            let ghost refs = refs_view(references@);
            let mut i: usize = 0;
            while i < references.len()
                invariant
                    refs == refs_view(references@),
                    leaf_view(*leaf) == LeafView::AnyOf(refs),
                    i <= references@.len(),
                    forall|k: int| 0 <= k < i ==> !#[trigger] ref_hit(refs[k], *unit, context.now, context.horizons@),
                decreases references@.len() - i,
            {
                assert(refs[i as int] == references@[i as int]@);
                if reference_matches(&references[i], unit, context) {
                    assert(ref_hit(refs[i as int], *unit, context.now, context.horizons@));
                    return Some(true);
                }
                i = i + 1;
            }
            Some(false)
        },
    }
}


/// What a prepared condition says of a unit: `None` when it holds no
/// condition, so it neither narrows an AND nor satisfies an OR on its own. An
/// AND fails when one term fails and holds when one holds and none fails; an
/// OR the other way round.
pub open spec fn node_eval(n: NodeView, u: SearchUnit, now: i128, hs: Seq<(DueKeyword, Option<i128>)>) -> Option<bool>
    decreases n,
{
    match n {
        NodeView::And(items) => if gives(items, u, now, hs, false) {
            Some(false)
        } else if gives(items, u, now, hs, true) {
            Some(true)
        } else {
            None
        },
        NodeView::Or(items) => if gives(items, u, now, hs, true) {
            Some(true)
        } else if gives(items, u, now, hs, false) {
            Some(false)
        } else {
            None
        },
        NodeView::Not(inner) => match node_eval(*inner, u, now, hs) {
            Some(b) => Some(!b),
            None => None,
        },
        NodeView::Leaf(l) => leaf_eval(l, u, now, hs),
    }
}

/// Whether one of `items` says `value` of the unit.
pub open spec fn gives(items: Seq<NodeView>, u: SearchUnit, now: i128, hs: Seq<(DueKeyword, Option<i128>)>, value: bool) -> bool
    decreases items,
{
    if items.len() == 0 {
        false
    } else {
        gives(items.subrange(0, items.len() - 1), u, now, hs, value) || node_eval(items[items.len() - 1], u, now, hs)
            == Some(value)
    }
}

proof fn lemma_gives_prefix(s: Seq<NodeView>, k: int, u: SearchUnit, now: i128, hs: Seq<(DueKeyword, Option<i128>)>, value: bool)
    requires
        0 <= k <= s.len(),
        gives(s.take(k), u, now, hs, value),
    ensures
        gives(s, u, now, hs, value),
    decreases s.len() - k,
{
    if k == s.len() {
        assert(s.take(k) =~= s);
    } else {
        let next = s.take(k + 1);
        assert(next.subrange(0, next.len() - 1) =~= s.take(k));
        lemma_gives_prefix(s, k + 1, u, now, hs, value);
    }
}

/// Whether the unit satisfies a prepared query. An empty query, or one that
/// holds no condition, matches everything.
pub open spec fn matches_unit(tree: Option<NodeView>, u: SearchUnit, now: i128, hs: Seq<(DueKeyword, Option<i128>)>) -> bool {
    match tree {
        None => true,
        Some(n) => match node_eval(n, u, now, hs) {
            Some(b) => b,
            None => true,
        },
    }
}

fn node_matches(n: &Node, unit: &SearchUnit, f: &FoldedUnit, context: &EvalContext) -> (r: Option<bool>)
    requires
        folded_unit_holds(*f, *unit),
    ensures
        r == node_eval(node_view(*n), *unit, context.now, context.horizons@),
    decreases n, 0nat,
{
    match n {
        Node::And(items) => {
            let (failed, held) = list_matches(items, unit, f, context, false);
            if failed {
                Some(false)
            } else if held {
                Some(true)
            } else {
                None
            }
        },
        Node::Or(items) => {
            let (held, failed) = list_matches(items, unit, f, context, true);
            if held {
                Some(true)
            } else if failed {
                Some(false)
            } else {
                None
            }
        },
        Node::Not(inner) => match node_matches(inner, unit, f, context) {
            Some(b) => Some(!b),
            None => None,
        },
        Node::Leaf(leaf) => leaf_matches(leaf, unit, f, context),
    }
}

/// Whether one of `items` says `decisive` of the unit, and, if none does,
/// whether one says the opposite. Stops at the first decisive item.
fn list_matches(items: &Vec<Node>, unit: &SearchUnit, f: &FoldedUnit, context: &EvalContext, decisive: bool) -> (r: (bool, bool))
    requires
        folded_unit_holds(*f, *unit),
    ensures
        r.0 == gives(nodes_view(items@), *unit, context.now, context.horizons@, decisive),
        !r.0 ==> r.1 == gives(nodes_view(items@), *unit, context.now, context.horizons@, !decisive),
    decreases items, 1nat,
{
    proof {
        lemma_nodes_view_index(items@);
    }
    let ghost all = nodes_view(items@);
    let mut other = false;
    let mut i: usize = 0;
    assert(all.take(0) =~= Seq::<NodeView>::empty());
    while i < items.len()
        invariant
            folded_unit_holds(*f, *unit),
            all == nodes_view(items@),
            all.len() == items@.len(),
            forall|j: int| 0 <= j < items@.len() ==> #[trigger] all[j] == node_view(items@[j]),
            i <= items@.len(),
            !gives(all.take(i as int), *unit, context.now, context.horizons@, decisive),
            other == gives(all.take(i as int), *unit, context.now, context.horizons@, !decisive),
        decreases items@.len() - i,
    {
        proof {
            assert(decreases_to!(items => items@[i as int]));
            let next = all.take(i + 1);
            assert(next.subrange(0, next.len() - 1) =~= all.take(i as int));
            assert(next[next.len() - 1] == all[i as int]);
        }
        match node_matches(&items[i], unit, f, context) {
            Some(b) => {
                if b == decisive {
                    proof {
                        lemma_gives_prefix(all, i + 1, *unit, context.now, context.horizons@, decisive);
                    }
                    return (true, other);
                }
                other = true;
            },
            None => {},
        }
        i = i + 1;
    }
    assert(all.take(items@.len() as int) =~= all);
    (false, other)
}

proof fn lemma_nodes_view_index(s: Seq<Node>)
    ensures
        nodes_view(s).len() == s.len(),
        forall|i: int| 0 <= i < s.len() ==> #[trigger] nodes_view(s)[i] == node_view(s[i]),
    decreases s.len(),
{
    if s.len() > 0 {
        let front = s.subrange(0, s.len() - 1);
        lemma_nodes_view_index(front);
        assert forall|i: int| 0 <= i < s.len() implies #[trigger] nodes_view(s)[i] == node_view(s[i]) by {
            if i < s.len() - 1 {
                assert(nodes_view(s)[i] == nodes_view(front)[i]);
                assert(front[i] == s[i]);
            }
        }
    }
}

/// The horizons a prepared condition asks about, in order: the keyword of
/// every due reference other than "overdue".
pub open spec fn node_keywords(n: NodeView) -> Seq<DueKeyword>
    decreases n,
{
    match n {
        NodeView::And(items) => list_keywords(items),
        NodeView::Or(items) => list_keywords(items),
        NodeView::Not(inner) => node_keywords(*inner),
        NodeView::Leaf(LeafView::AnyOf(refs)) => ref_keywords(refs),
        NodeView::Leaf(_) => Seq::empty(),
    }
}

pub open spec fn list_keywords(items: Seq<NodeView>) -> Seq<DueKeyword>
    decreases items,
{
    if items.len() == 0 {
        Seq::empty()
    } else {
        list_keywords(items.subrange(0, items.len() - 1)) + node_keywords(items[items.len() - 1])
    }
}

pub open spec fn ref_keywords(refs: Seq<ReferenceView>) -> Seq<DueKeyword>
    decreases refs.len(),
{
    if refs.len() == 0 {
        Seq::empty()
    } else {
        let front = ref_keywords(refs.drop_last());
        match refs.last() {
            ReferenceView::Due(spec) => if spec_keyword(spec) == DueKeyword::Overdue {
                front
            } else {
                front.push(spec_keyword(spec))
            },
            _ => front,
        }
    }
}

fn push_list_keywords(out: &mut Vec<DueKeyword>, items: &Vec<Node>)
    ensures
        final(out)@ == old(out)@ + list_keywords(nodes_view(items@)),
    decreases items, 1nat,
{
    proof {
        lemma_nodes_view_index(items@);
    }
    let ghost all = nodes_view(items@);
    let ghost start = out@;
    let mut i: usize = 0;
    assert(all.take(0) =~= Seq::<NodeView>::empty());
    while i < items.len()
        invariant
            all == nodes_view(items@),
            all.len() == items@.len(),
            forall|j: int| 0 <= j < items@.len() ==> #[trigger] all[j] == node_view(items@[j]),
            i <= items@.len(),
            out@ == start + list_keywords(all.take(i as int)),
        decreases items@.len() - i,
    {
        proof {
            assert(decreases_to!(items => items@[i as int]));
            let next = all.take(i + 1);
            assert(next.subrange(0, next.len() - 1) =~= all.take(i as int));
            assert(next[next.len() - 1] == all[i as int]);
        }
        push_keywords(out, &items[i]);
        assert(out@ =~= start + list_keywords(all.take(i + 1)));
        i = i + 1;
    }
    assert(all.take(items@.len() as int) =~= all);
}

fn push_keywords(out: &mut Vec<DueKeyword>, n: &Node)
    ensures
        final(out)@ == old(out)@ + node_keywords(node_view(*n)),
    decreases n, 0nat,
{
    match n {
        Node::And(items) => push_list_keywords(out, items),
        Node::Or(items) => push_list_keywords(out, items),
        Node::Not(inner) => push_keywords(out, inner),
        Node::Leaf(Leaf::AnyOf(references)) => {
            let ghost refs = refs_view(references@);
            let ghost start = out@;
            let mut i: usize = 0;
            assert(refs.take(0) =~= Seq::<ReferenceView>::empty());
            while i < references.len()
                invariant
                    refs == refs_view(references@),
                    node_keywords(node_view(*n)) == ref_keywords(refs),
                    i <= references@.len(),
                    out@ == start + ref_keywords(refs.take(i as int)),
                decreases references@.len() - i,
            {
                proof {
                    assert(refs.take(i + 1).drop_last() =~= refs.take(i as int));
                    assert(refs.take(i + 1).last() == references@[i as int]@);
                }
                match &references[i] {
                    Reference::Due(spec) => {
                        let k = spec.keyword();
                        if k != DueKeyword::Overdue {
                            out.push(k);
                        }
                    },
                    _ => {},
                }
                assert(out@ =~= start + ref_keywords(refs.take(i + 1)));
                i = i + 1;
            }
            assert(refs.take(references@.len() as int) =~= refs);
        },
        Node::Leaf(_) => {
            assert(out@ =~= old(out)@ + node_keywords(node_view(*n)));
        },
    }
}

impl Prepared {
    /// Whether the unit satisfies the query. An empty query matches everything.
    pub fn matches(&self, unit: &SearchUnit, context: &EvalContext) -> (r: bool)
        ensures
            r == matches_unit(self.tree(), *unit, context.now, context.horizons@),
    {
        match &self.expr {
            None => true,
            Some(n) => {
                let folded = fold_unit(unit);
                match node_matches(n, unit, &folded, context) {
                    Some(b) => b,
                    None => true,
                }
            },
        }
    }

    /// The due horizons the query asks about, for the caller to find where
    /// each ends before matching.
    pub fn due_keywords(&self) -> (r: Vec<DueKeyword>)
        ensures
            r@ == match self.tree() {
                Some(n) => node_keywords(n),
                None => Seq::empty(),
            },
    {
        let mut out: Vec<DueKeyword> = Vec::new();
        match &self.expr {
            Some(n) => {
                push_keywords(&mut out, n);
                assert(out@ =~= node_keywords(node_view(*n)));
            },
            None => {},
        }
        out
    }
}


/// A condition that can never narrow anything says nothing of any unit.
pub proof fn law_neutral_says_nothing(n: NodeView, u: SearchUnit, now: i128, hs: Seq<(DueKeyword, Option<i128>)>)
    requires
        is_neutral(n),
    ensures
        node_eval(n, u, now, hs) is None,
    decreases n,
{
    match n {
        NodeView::And(items) => {
            lemma_neutral_items_say_nothing(items, u, now, hs);
        },
        NodeView::Or(items) => {
            lemma_neutral_items_say_nothing(items, u, now, hs);
        },
        NodeView::Not(inner) => {
            law_neutral_says_nothing(*inner, u, now, hs);
        },
        NodeView::Leaf(_) => {},
    }
}

proof fn lemma_neutral_items_say_nothing(items: Seq<NodeView>, u: SearchUnit, now: i128, hs: Seq<(DueKeyword, Option<i128>)>)
    requires
        all_neutral(items),
    ensures
        !gives(items, u, now, hs, true),
        !gives(items, u, now, hs, false),
    decreases items,
{
    if items.len() > 0 {
        lemma_neutral_items_say_nothing(items.subrange(0, items.len() - 1), u, now, hs);
        law_neutral_says_nothing(items[items.len() - 1], u, now, hs);
    }
}

/// A query without any condition matches every unit.
pub proof fn law_empty_query_matches_everything(p: Prepared, u: SearchUnit, now: i128, hs: Seq<(DueKeyword, Option<i128>)>)
    requires
        match p.tree() {
            Some(n) => is_neutral(n),
            None => true,
        },
    ensures
        matches_unit(p.tree(), u, now, hs),
{
    match p.tree() {
        Some(n) => law_neutral_says_nothing(n, u, now, hs),
        None => {},
    }
}

/// A term that holds no condition neither narrows an AND nor widens an OR.
pub proof fn law_ignored_term_changes_nothing(items: Seq<NodeView>, u: SearchUnit, now: i128, hs: Seq<(DueKeyword, Option<i128>)>)
    ensures
        node_eval(NodeView::And(items.push(NodeView::Leaf(LeafView::Ignore))), u, now, hs)
            == node_eval(NodeView::And(items), u, now, hs),
        node_eval(NodeView::Or(items.push(NodeView::Leaf(LeafView::Ignore))), u, now, hs)
            == node_eval(NodeView::Or(items), u, now, hs),
{
    let more = items.push(NodeView::Leaf(LeafView::Ignore));
    assert(more.subrange(0, more.len() - 1) =~= items);
    assert(node_eval(more[more.len() - 1], u, now, hs) is None);
    assert(gives(more, u, now, hs, true) == gives(items, u, now, hs, true));
    assert(gives(more, u, now, hs, false) == gives(items, u, now, hs, false));
}

} // verus!
