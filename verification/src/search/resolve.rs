//! Looks names up and writes references back as names.
//!
//! A [`Reference`] is what a confirmed `@` token points at. The search box
//! shows it as a short name (`@仕事`) while the internal query keeps the
//! reference itself (`@project:{id}`), so a rename or a language switch only
//! changes how it is shown.

use vstd::prelude::*;
use crate::search::due::{due_key, due_spelled, parse_due, DueSpec};
use crate::search::lexer::{join_dots, read_term, read_term_of, AtWord, AtWordView, RawTerm, RawTermView};
use crate::search::normalize::{fold, folded, quote_if_needed, quoted_name};
use crate::search::vocabulary::{kind_key_word, kind_spelled, parse_status, status_key_word, status_spelled, Lang, RefKind, StatusKey};
use crate::text::{chars_of, push_char, push_str, same_text};

verus! {

/// The target of a confirmed `@` token.
#[derive(Debug, PartialEq, Eq, Hash)]
pub enum Reference {
    Due(DueSpec),
    Status(StatusKey),
    Project(String),
    List(String),
    /// A user, by `UserId`: the handle may become editable.
    User(String),
}

/// The value of a [`Reference`].
pub enum ReferenceView {
    Due(DueSpec),
    Status(StatusKey),
    Project(Seq<char>),
    List(Seq<char>),
    User(Seq<char>),
}

impl View for Reference {
    type V = ReferenceView;

    open spec fn view(&self) -> ReferenceView {
        match self {
            Reference::Due(s) => ReferenceView::Due(*s),
            Reference::Status(k) => ReferenceView::Status(*k),
            Reference::Project(id) => ReferenceView::Project(id@),
            Reference::List(id) => ReferenceView::List(id@),
            Reference::User(id) => ReferenceView::User(id@),
        }
    }
}

impl Clone for Reference {
    fn clone(&self) -> (r: Self)
        ensures
            r == *self,
    {
        match self {
            Reference::Due(s) => Reference::Due(*s),
            Reference::Status(k) => Reference::Status(*k),
            Reference::Project(id) => Reference::Project(id.clone()),
            Reference::List(id) => Reference::List(id.clone()),
            Reference::User(id) => Reference::User(id.clone()),
        }
    }
}

/// The values of a list of references.
pub open spec fn refs_view(v: Seq<Reference>) -> Seq<ReferenceView> {
    v.map_values(|r: Reference| r@)
}

/// The kind of thing a reference points at.
pub open spec fn ref_kind(r: ReferenceView) -> RefKind {
    match r {
        ReferenceView::Due(_) => RefKind::Due,
        ReferenceView::Status(_) => RefKind::Status,
        ReferenceView::Project(_) => RefKind::Project,
        ReferenceView::List(_) => RefKind::List,
        ReferenceView::User(_) => RefKind::User,
    }
}

/// The token kept in the internal query for a reference.
pub open spec fn canonical_of(r: ReferenceView) -> Seq<char> {
    let body = match r {
        ReferenceView::Due(s) => due_key(s),
        ReferenceView::Status(k) => status_key_word(k),
        ReferenceView::Project(id) => seq!['{'] + id + seq!['}'],
        ReferenceView::List(id) => seq!['{'] + id + seq!['}'],
        ReferenceView::User(id) => seq!['{'] + id + seq!['}'],
    };
    seq!['@'] + kind_key_word(ref_kind(r)) + seq![':'] + body
}

impl Reference {
    pub fn kind(&self) -> (r: RefKind)
        ensures
            r == ref_kind(self@),
    {
        match self {
            Reference::Due(_) => RefKind::Due,
            Reference::Status(_) => RefKind::Status,
            Reference::Project(_) => RefKind::Project,
            Reference::List(_) => RefKind::List,
            Reference::User(_) => RefKind::User,
        }
    }

    /// The token kept in the internal query, e.g. `@due:today`.
    pub fn canonical(&self) -> (r: String)
        ensures
            r@ == canonical_of(self@),
    {
        let mut out = String::new();
        push_char(&mut out, '@');
        push_str(&mut out, self.kind().key());
        push_char(&mut out, ':');
        match self {
            Reference::Due(spec) => {
                let key = spec.key();
                push_str(&mut out, key.as_str());
            },
            Reference::Status(status) => push_str(&mut out, status.key()),
            Reference::Project(id) | Reference::List(id) | Reference::User(id) => {
                push_char(&mut out, '{');
                push_str(&mut out, id.as_str());
                push_char(&mut out, '}');
            },
        }
        assert(out@ =~= canonical_of(self@));
        out
    }

    /// Whether two references point at the same target.
    pub fn same_as(&self, other: &Reference) -> (r: bool)
        ensures
            r == (self@ == other@),
    {
        match (self, other) {
            (Reference::Due(a), Reference::Due(b)) => *a == *b,
            (Reference::Status(a), Reference::Status(b)) => *a == *b,
            (Reference::Project(a), Reference::Project(b)) => same_text(a.as_str(), b.as_str()),
            (Reference::List(a), Reference::List(b)) => same_text(a.as_str(), b.as_str()),
            (Reference::User(a), Reference::User(b)) => same_text(a.as_str(), b.as_str()),
            _ => false,
        }
    }
}

#[derive(Debug, Clone, PartialEq, Eq)]
pub struct ProjectEntry {
    pub id: String,
    pub name: String,
    /// Stored hex colour, empty when unset.
    pub color: String,
    pub list_count: usize,
    pub archived: bool,
}

#[derive(Debug, Clone, PartialEq, Eq)]
pub struct ListEntry {
    pub id: String,
    pub project_id: String,
    pub name: String,
}

#[derive(Debug, Clone, PartialEq, Eq)]
pub struct UserEntry {
    pub id: String,
    pub display_name: String,
    pub handle: String,
}

pub open spec fn project_ids(ps: Seq<ProjectEntry>) -> Seq<Seq<char>> {
    ps.map_values(|p: ProjectEntry| p.id@)
}

pub open spec fn list_ids(ls: Seq<ListEntry>) -> Seq<Seq<char>> {
    ls.map_values(|l: ListEntry| l.id@)
}

pub open spec fn user_ids(us: Seq<UserEntry>) -> Seq<Seq<char>> {
    us.map_values(|u: UserEntry| u.id@)
}

/// The first position at or after `i` holding `id`.
pub open spec fn id_from(ids: Seq<Seq<char>>, id: Seq<char>, i: int) -> Option<int>
    decreases ids.len() - i,
{
    if i < 0 || i >= ids.len() {
        None
    } else if ids[i] == id {
        Some(i)
    } else {
        id_from(ids, id, i + 1)
    }
}

pub proof fn lemma_id_from(ids: Seq<Seq<char>>, id: Seq<char>, i: int)
    requires
        0 <= i,
    ensures
        id_from(ids, id, i) matches Some(k) ==> i <= k < ids.len() && ids[k] == id,
        id_from(ids, id, i) is None ==> forall|k: int| i <= k < ids.len() ==> ids[k] != id,
    decreases ids.len() - i,
{
    if i < ids.len() && ids[i] != id {
        lemma_id_from(ids, id, i + 1);
    }
}

/// Every name the search box can resolve, with folded copies for matching.
pub struct NameIndex {
    projects: Vec<ProjectEntry>,
    project_names: Vec<String>,
    lists: Vec<ListEntry>,
    list_names: Vec<String>,
    users: Vec<UserEntry>,
    user_names: Vec<String>,
    user_handles: Vec<String>,
}

impl NameIndex {
    /// Each folded copy is the fold of the name beside it.
    #[verifier::type_invariant]
    spec fn folded_copies(self) -> bool {
        &&& self.project_names@.len() == self.projects@.len()
        &&& forall|i: int|
            0 <= i < self.projects@.len() ==> #[trigger] self.project_names@[i]@ == folded(
                self.projects@[i].name@,
            )
        &&& self.list_names@.len() == self.lists@.len()
        &&& forall|i: int|
            0 <= i < self.lists@.len() ==> #[trigger] self.list_names@[i]@ == folded(
                self.lists@[i].name@,
            )
        &&& self.user_names@.len() == self.users@.len()
        &&& self.user_handles@.len() == self.users@.len()
        &&& forall|i: int|
            0 <= i < self.users@.len() ==> #[trigger] self.user_names@[i]@ == folded(
                self.users@[i].display_name@,
            )
        &&& forall|i: int|
            0 <= i < self.users@.len() ==> #[trigger] self.user_handles@[i]@ == folded(
                self.users@[i].handle@,
            )
    }

    /// The projects, in the order they were given.
    pub closed spec fn project_entries(self) -> Seq<ProjectEntry> {
        self.projects@
    }

    /// The lists, in the order they were given.
    pub closed spec fn list_entries(self) -> Seq<ListEntry> {
        self.lists@
    }

    /// The users, in the order they were given.
    pub closed spec fn user_entries(self) -> Seq<UserEntry> {
        self.users@
    }

    pub fn new(projects: Vec<ProjectEntry>, lists: Vec<ListEntry>, users: Vec<UserEntry>) -> (r:
        Self)
        ensures
            r.project_entries() == projects@,
            r.list_entries() == lists@,
            r.user_entries() == users@,
    {
        let mut project_names: Vec<String> = Vec::new();
        let mut i: usize = 0;
        while i < projects.len()
            invariant
                i <= projects@.len(),
                project_names@.len() == i,
                forall|k: int|
                    0 <= k < i ==> #[trigger] project_names@[k]@ == folded(projects@[k].name@),
            decreases projects@.len() - i,
        {
            project_names.push(fold(projects[i].name.as_str()));
            i = i + 1;
        }
        let mut list_names: Vec<String> = Vec::new();
        let mut i: usize = 0;
        while i < lists.len()
            invariant
                i <= lists@.len(),
                list_names@.len() == i,
                forall|k: int| 0 <= k < i ==> #[trigger] list_names@[k]@ == folded(lists@[k].name@),
            decreases lists@.len() - i,
        {
            list_names.push(fold(lists[i].name.as_str()));
            i = i + 1;
        }
        let mut user_names: Vec<String> = Vec::new();
        let mut user_handles: Vec<String> = Vec::new();
        let mut i: usize = 0;
        while i < users.len()
            invariant
                i <= users@.len(),
                user_names@.len() == i,
                user_handles@.len() == i,
                forall|k: int|
                    0 <= k < i ==> #[trigger] user_names@[k]@ == folded(users@[k].display_name@),
                forall|k: int|
                    0 <= k < i ==> #[trigger] user_handles@[k]@ == folded(users@[k].handle@),
            decreases users@.len() - i,
        {
            user_names.push(fold(users[i].display_name.as_str()));
            user_handles.push(fold(users[i].handle.as_str()));
            i = i + 1;
        }
        NameIndex { projects, project_names, lists, list_names, users, user_names, user_handles }
    }

    pub fn projects(&self) -> (r: &[ProjectEntry])
        ensures
            r@ == self.project_entries(),
    {
        self.projects.as_slice()
    }

    pub fn lists(&self) -> (r: &[ListEntry])
        ensures
            r@ == self.list_entries(),
    {
        self.lists.as_slice()
    }

    pub fn users(&self) -> (r: &[UserEntry])
        ensures
            r@ == self.user_entries(),
    {
        self.users.as_slice()
    }

    fn project_position(&self, id: &str) -> (r: Option<usize>)
        ensures
            r matches Some(k) ==> id_from(project_ids(self.project_entries()), id@, 0) == Some(
                k as int,
            ),
            r is None ==> id_from(project_ids(self.project_entries()), id@, 0) is None,
    {
        let ghost ids = project_ids(self.project_entries());
        let mut i: usize = 0;
        while i < self.projects.len()
            invariant
                ids == project_ids(self.projects@),
                i <= self.projects@.len(),
                id_from(ids, id@, i as int) == id_from(ids, id@, 0),
            decreases self.projects@.len() - i,
        {
            if same_text(self.projects[i].id.as_str(), id) {
                return Some(i);
            }
            i = i + 1;
        }
        None
    }

    fn list_position(&self, id: &str) -> (r: Option<usize>)
        ensures
            r matches Some(k) ==> id_from(list_ids(self.list_entries()), id@, 0) == Some(k as int),
            r is None ==> id_from(list_ids(self.list_entries()), id@, 0) is None,
    {
        let ghost ids = list_ids(self.list_entries());
        let mut i: usize = 0;
        while i < self.lists.len()
            invariant
                ids == list_ids(self.lists@),
                i <= self.lists@.len(),
                id_from(ids, id@, i as int) == id_from(ids, id@, 0),
            decreases self.lists@.len() - i,
        {
            if same_text(self.lists[i].id.as_str(), id) {
                return Some(i);
            }
            i = i + 1;
        }
        None
    }

    fn user_position(&self, id: &str) -> (r: Option<usize>)
        ensures
            r matches Some(k) ==> id_from(user_ids(self.user_entries()), id@, 0) == Some(k as int),
            r is None ==> id_from(user_ids(self.user_entries()), id@, 0) is None,
    {
        let ghost ids = user_ids(self.user_entries());
        let mut i: usize = 0;
        while i < self.users.len()
            invariant
                ids == user_ids(self.users@),
                i <= self.users@.len(),
                id_from(ids, id@, i as int) == id_from(ids, id@, 0),
            decreases self.users@.len() - i,
        {
            if same_text(self.users[i].id.as_str(), id) {
                return Some(i);
            }
            i = i + 1;
        }
        None
    }

    /// The first project with this id.
    pub fn project(&self, id: &str) -> (r: Option<&ProjectEntry>)
        ensures
            match id_from(project_ids(self.project_entries()), id@, 0) {
                Some(k) => r matches Some(e) && *e == self.project_entries()[k],
                None => r is None,
            },
    {
        match self.project_position(id) {
            Some(k) => {
                proof {
                    lemma_id_from(project_ids(self.project_entries()), id@, 0);
                }
                Some(&self.projects[k])
            },
            None => None,
        }
    }

    /// The first list with this id.
    pub fn list(&self, id: &str) -> (r: Option<&ListEntry>)
        ensures
            match id_from(list_ids(self.list_entries()), id@, 0) {
                Some(k) => r matches Some(e) && *e == self.list_entries()[k],
                None => r is None,
            },
    {
        match self.list_position(id) {
            Some(k) => {
                proof {
                    lemma_id_from(list_ids(self.list_entries()), id@, 0);
                }
                Some(&self.lists[k])
            },
            None => None,
        }
    }

    /// The first user with this id.
    pub fn user(&self, id: &str) -> (r: Option<&UserEntry>)
        ensures
            match id_from(user_ids(self.user_entries()), id@, 0) {
                Some(k) => r matches Some(e) && *e == self.user_entries()[k],
                None => r is None,
            },
    {
        match self.user_position(id) {
            Some(k) => {
                proof {
                    lemma_id_from(user_ids(self.user_entries()), id@, 0);
                }
                Some(&self.users[k])
            },
            None => None,
        }
    }

    /// Whether the reference still points at something that exists.
    pub fn still_exists(&self, reference: &Reference) -> (r: bool)
        ensures
            r == target_exists(
                self.project_entries(),
                self.list_entries(),
                self.user_entries(),
                reference@,
            ),
    {
        match reference {
            Reference::Due(_) | Reference::Status(_) => true,
            Reference::Project(id) => self.project_position(id.as_str()).is_some(),
            Reference::List(id) => self.list_position(id.as_str()).is_some(),
            Reference::User(id) => self.user_position(id.as_str()).is_some(),
        }
    }
}

/// Whether a reference points at something in the given entries.
pub open spec fn target_exists(
    ps: Seq<ProjectEntry>,
    ls: Seq<ListEntry>,
    us: Seq<UserEntry>,
    r: ReferenceView,
) -> bool {
    match r {
        ReferenceView::Due(_) => true,
        ReferenceView::Status(_) => true,
        ReferenceView::Project(id) => id_from(project_ids(ps), id, 0) is Some,
        ReferenceView::List(id) => id_from(list_ids(ls), id, 0) is Some,
        ReferenceView::User(id) => id_from(user_ids(us), id, 0) is Some,
    }
}

impl Default for NameIndex {
    fn default() -> (r: Self)
        ensures
            r.project_entries().len() == 0,
            r.list_entries().len() == 0,
            r.user_entries().len() == 0,
    {
        NameIndex::new(Vec::new(), Vec::new(), Vec::new())
    }
}

/// Whether `t` matches the folded pattern `p`, where `*` stands for any run of
/// characters.
pub open spec fn glob_match(p: Seq<char>, t: Seq<char>) -> bool
    decreases p.len(), t.len(),
{
    if p.len() == 0 {
        t.len() == 0
    } else if p[0] == '*' {
        if glob_match(p.drop_first(), t) {
            true
        } else if t.len() == 0 {
            false
        } else {
            glob_match(p, t.drop_first())
        }
    } else if t.len() == 0 {
        false
    } else {
        t[0] == p[0] && glob_match(p.drop_first(), t.drop_first())
    }
}

proof fn lemma_glob_step(p: Seq<char>, t: Seq<char>, i: int, k: int)
    requires
        0 <= i < p.len(),
        0 <= k <= t.len(),
    ensures
        glob_match(p.skip(i), t.skip(k)) == if p[i] == '*' {
            glob_match(p.skip(i + 1), t.skip(k)) || (k < t.len() && glob_match(
                p.skip(i),
                t.skip(k + 1),
            ))
        } else {
            k < t.len() && t[k] == p[i] && glob_match(p.skip(i + 1), t.skip(k + 1))
        },
{
    assert(p.skip(i).drop_first() =~= p.skip(i + 1));
    if k < t.len() {
        assert(t.skip(k).drop_first() =~= t.skip(k + 1));
    }
}

/// Matches a folded pattern where `*` stands for any run of characters.
pub fn glob(pattern: &str, text: &str) -> (r: bool)
    ensures
        r == glob_match(pattern@, text@),
{
    let p = chars_of(pattern);
    let t = chars_of(text);
    let n = p.len();
    let m = t.len();
    let ghost ps = p@;
    let ghost ts = t@;
    // The row for the empty pattern suffix: only the empty text matches.
    let mut next: Vec<bool> = Vec::new();
    let mut k: usize = 0;
    while k < m
        invariant
            m == ts.len(),
            k <= m,
            next@.len() == k,
            forall|j: int| 0 <= j < k ==> !#[trigger] next@[j],
        decreases m - k,
    {
        next.push(false);
        k = k + 1;
    }
    let mut next_end = true;
    proof {
        assert forall|j: int| 0 <= j < m implies next@[j] == glob_match(
            ps.skip(n as int),
            #[trigger] ts.skip(j),
        ) by {}
        assert(ps.skip(n as int).len() == 0);
    }
    let mut i = n;
    while i > 0
        invariant
            n == ps.len(),
            m == ts.len(),
            p@ == ps,
            t@ == ts,
            i <= n,
            next@.len() == m,
            next_end == glob_match(ps.skip(i as int), ts.skip(m as int)),
            forall|j: int|
                0 <= j < m ==> #[trigger] next@[j] == glob_match(ps.skip(i as int), ts.skip(j)),
        decreases i,
    {
        i = i - 1;
        let star = p[i] == '*';
        proof {
            lemma_glob_step(ps, ts, i as int, m as int);
        }
        let cur_end = star && next_end;
        let mut cur: Vec<bool> = Vec::new();
        let mut k: usize = 0;
        while k < m
            invariant
                k <= m,
                cur@.len() == k,
            decreases m - k,
        {
            cur.push(false);
            k = k + 1;
        }
        let mut j = m;
        while j > 0
            invariant
                n == ps.len(),
                m == ts.len(),
                p@ == ps,
                t@ == ts,
                i < n,
                star == (ps[i as int] == '*'),
                j <= m,
                cur@.len() == m,
                next@.len() == m,
                cur_end == glob_match(ps.skip(i as int), ts.skip(m as int)),
                next_end == glob_match(ps.skip(i + 1), ts.skip(m as int)),
                forall|l: int|
                    0 <= l < m ==> #[trigger] next@[l] == glob_match(ps.skip(i + 1), ts.skip(l)),
                forall|l: int|
                    j <= l < m ==> #[trigger] cur@[l] == glob_match(ps.skip(i as int), ts.skip(l)),
            decreases j,
        {
            j = j - 1;
            let after_cur = if j + 1 < m {
                cur[j + 1]
            } else {
                cur_end
            };
            let after_next = if j + 1 < m {
                next[j + 1]
            } else {
                next_end
            };
            let value = if star {
                next[j] || after_cur
            } else {
                t[j] == p[i] && after_next
            };
            proof {
                lemma_glob_step(ps, ts, i as int, j as int);
            }
            cur.set(j, value);
        }
        next = cur;
        next_end = cur_end;
    }
    proof {
        assert(ps.skip(0) =~= ps);
        assert(ts.skip(0) =~= ts);
    }
    if m == 0 {
        next_end
    } else {
        next[0]
    }
}

/// Whether a folded name is hit by a folded pattern: exactly, or as a glob.
pub open spec fn name_hits(glob: bool, pattern: Seq<char>, name: Seq<char>) -> bool {
    if glob {
        glob_match(pattern, name)
    } else {
        name == pattern
    }
}

/// The projects whose folded name is hit, in order.
pub open spec fn project_hits(ps: Seq<ProjectEntry>, glob: bool, pat: Seq<char>) -> Seq<
    ReferenceView,
>
    decreases ps.len(),
{
    if ps.len() == 0 {
        Seq::empty()
    } else {
        let rest = project_hits(ps.drop_last(), glob, pat);
        if name_hits(glob, pat, folded(ps.last().name@)) {
            rest.push(ReferenceView::Project(ps.last().id@))
        } else {
            rest
        }
    }
}

/// The lists whose folded name is hit, in order.
pub open spec fn list_hits(ls: Seq<ListEntry>, glob: bool, pat: Seq<char>) -> Seq<ReferenceView>
    decreases ls.len(),
{
    if ls.len() == 0 {
        Seq::empty()
    } else {
        let rest = list_hits(ls.drop_last(), glob, pat);
        if name_hits(glob, pat, folded(ls.last().name@)) {
            rest.push(ReferenceView::List(ls.last().id@))
        } else {
            rest
        }
    }
}

/// The users whose folded display name or handle is hit, in order.
pub open spec fn user_hits(us: Seq<UserEntry>, glob: bool, pat: Seq<char>) -> Seq<ReferenceView>
    decreases us.len(),
{
    if us.len() == 0 {
        Seq::empty()
    } else {
        let rest = user_hits(us.drop_last(), glob, pat);
        if name_hits(glob, pat, folded(us.last().display_name@)) || name_hits(
            glob,
            pat,
            folded(us.last().handle@),
        ) {
            rest.push(ReferenceView::User(us.last().id@))
        } else {
            rest
        }
    }
}

/// Whether some project with this id has a folded name that is hit.
pub open spec fn project_named(
    ps: Seq<ProjectEntry>,
    id: Seq<char>,
    glob: bool,
    pat: Seq<char>,
) -> bool {
    exists|j: int|
        0 <= j < ps.len() && #[trigger] ps[j].id@ == id && name_hits(glob, pat, folded(ps[j].name@))
}

/// The lists hit by `lpat` that belong to a project hit by `ppat`, in order.
pub open spec fn qualified_hits(
    ls: Seq<ListEntry>,
    ps: Seq<ProjectEntry>,
    glob: bool,
    ppat: Seq<char>,
    lpat: Seq<char>,
) -> Seq<ReferenceView>
    decreases ls.len(),
{
    if ls.len() == 0 {
        Seq::empty()
    } else {
        let rest = qualified_hits(ls.drop_last(), ps, glob, ppat, lpat);
        if name_hits(glob, lpat, folded(ls.last().name@)) && project_named(
            ps,
            ls.last().project_id@,
            glob,
            ppat,
        ) {
            rest.push(ReferenceView::List(ls.last().id@))
        } else {
            rest
        }
    }
}

/// Whether an `@` word lets a reference of kind `k` through.
pub open spec fn allows_kind(w: AtWordView, k: RefKind) -> bool {
    match w.kind {
        Some(wanted) => wanted == k,
        None => true,
    }
}

/// `s` with every repeat of an earlier element left out.
pub open spec fn dedup_refs(s: Seq<ReferenceView>) -> Seq<ReferenceView>
    decreases s.len(),
{
    if s.len() == 0 {
        s
    } else {
        let rest = dedup_refs(s.drop_last());
        if rest.contains(s.last()) {
            rest
        } else {
            rest.push(s.last())
        }
    }
}

/// The due date and state an unquoted single-part word spells, if any.
pub open spec fn keyword_refs(w: AtWordView, whole: Seq<char>) -> Seq<ReferenceView> {
    if !w.quoted && w.parts.len() == 1 {
        let due = if allows_kind(w, RefKind::Due) {
            match parse_due(whole) {
                Some(spec) => seq![ReferenceView::Due(spec)],
                None => Seq::empty(),
            }
        } else {
            Seq::empty()
        };
        let status = if allows_kind(w, RefKind::Status) {
            match parse_status(whole) {
                Some(k) => seq![ReferenceView::Status(k)],
                None => Seq::empty(),
            }
        } else {
            Seq::empty()
        };
        due + status
    } else {
        Seq::empty()
    }
}

/// What an exact (wildcard-free) word names, before repeats are dropped.
pub open spec fn exact_refs(
    ps: Seq<ProjectEntry>,
    ls: Seq<ListEntry>,
    us: Seq<UserEntry>,
    w: AtWordView,
) -> Seq<ReferenceView> {
    let whole = folded(join_dots(w.parts));
    let projects = if allows_kind(w, RefKind::Project) {
        project_hits(ps, false, whole)
    } else {
        Seq::empty()
    };
    let lists = if allows_kind(w, RefKind::List) {
        list_hits(ls, false, whole) + if w.parts.len() >= 2 {
            qualified_hits(
                ls,
                ps,
                false,
                folded(w.parts[0]),
                folded(join_dots(w.parts.skip(1))),
            )
        } else {
            Seq::empty()
        }
    } else {
        Seq::empty()
    };
    let users = if allows_kind(w, RefKind::User) {
        user_hits(us, false, whole)
    } else {
        Seq::empty()
    };
    keyword_refs(w, whole) + projects + lists + users
}

/// What a wildcard word names.
pub open spec fn pattern_refs(
    ps: Seq<ProjectEntry>,
    ls: Seq<ListEntry>,
    us: Seq<UserEntry>,
    w: AtWordView,
) -> Seq<ReferenceView> {
    let parts = w.parts.map_values(|part: Seq<char>| folded(part));
    if parts.len() == 1 {
        let pat = parts[0];
        (if allows_kind(w, RefKind::Project) {
            project_hits(ps, true, pat)
        } else {
            Seq::empty()
        }) + (if allows_kind(w, RefKind::List) {
            list_hits(ls, true, pat)
        } else {
            Seq::empty()
        }) + (if allows_kind(w, RefKind::User) {
            user_hits(us, true, pat)
        } else {
            Seq::empty()
        })
    } else if parts.len() >= 2 && allows_kind(w, RefKind::List) {
        qualified_hits(ls, ps, true, parts[0], join_dots(parts.skip(1)))
    } else {
        Seq::empty()
    }
}

/// What a word written as `@<kind>:{id}` names: the target, while it exists.
pub open spec fn id_refs(
    ps: Seq<ProjectEntry>,
    ls: Seq<ListEntry>,
    us: Seq<UserEntry>,
    kind: Option<RefKind>,
    id: Seq<char>,
) -> Seq<ReferenceView> {
    let target = match kind {
        Some(RefKind::Project) => Some(ReferenceView::Project(id)),
        Some(RefKind::List) => Some(ReferenceView::List(id)),
        Some(RefKind::User) => Some(ReferenceView::User(id)),
        _ => None,
    };
    match target {
        Some(r) => if target_exists(ps, ls, us, r) {
            seq![r]
        } else {
            Seq::empty()
        },
        None => Seq::empty(),
    }
}

/// Everything an `@` word names, in the order candidates are offered.
pub open spec fn resolved(
    ps: Seq<ProjectEntry>,
    ls: Seq<ListEntry>,
    us: Seq<UserEntry>,
    w: AtWordView,
) -> Seq<ReferenceView> {
    match w.id {
        Some(id) => id_refs(ps, ls, us, w.kind, id),
        None => if w.wildcard {
            pattern_refs(ps, ls, us, w)
        } else {
            dedup_refs(exact_refs(ps, ls, us, w))
        },
    }
}

fn name_hit(glob_mode: bool, pattern: &String, name: &String) -> (r: bool)
    ensures
        r == name_hits(glob_mode, pattern@, name@),
{
    if glob_mode {
        glob(pattern.as_str(), name.as_str())
    } else {
        same_text(name.as_str(), pattern.as_str())
    }
}

fn allows(word: &AtWord, kind: RefKind) -> (r: bool)
    ensures
        r == allows_kind(word@, kind),
{
    match word.kind {
        Some(wanted) => wanted == kind,
        None => true,
    }
}

/// Whether `v` holds a reference to the same target as `x`.
pub fn contains_reference(v: &Vec<Reference>, x: &Reference) -> (r: bool)
    ensures
        r == refs_view(v@).contains(x@),
{
    let mut i: usize = 0;
    while i < v.len()
        invariant
            i <= v@.len(),
            forall|k: int| 0 <= k < i ==> #[trigger] refs_view(v@)[k] != x@,
        decreases v@.len() - i,
    {
        if v[i].same_as(x) {
            assert(refs_view(v@)[i as int] == x@);
            return true;
        }
        i = i + 1;
    }
    false
}

fn dedup(references: Vec<Reference>) -> (r: Vec<Reference>)
    ensures
        refs_view(r@) == dedup_refs(refs_view(references@)),
{
    let ghost all = refs_view(references@);
    let mut unique: Vec<Reference> = Vec::new();
    let mut i: usize = 0;
    while i < references.len()
        invariant
            all == refs_view(references@),
            i <= references@.len(),
            refs_view(unique@) == dedup_refs(all.take(i as int)),
        decreases references@.len() - i,
    {
        let ghost before = unique@;
        proof {
            assert(all.take(i + 1).drop_last() =~= all.take(i as int));
        }
        if !contains_reference(&unique, &references[i]) {
            unique.push(references[i].clone());
            assert(refs_view(unique@) =~= refs_view(before).push(all[i as int]));
        }
        i = i + 1;
    }
    assert(all.take(references@.len() as int) =~= all);
    unique
}

/// Joins `parts[from..]` with dots.
fn join_from(parts: &Vec<String>, from: usize) -> (r: String)
    requires
        from <= parts@.len(),
    ensures
        r@ == join_dots(parts@.map_values(|s: String| s@).skip(from as int)),
{
    let ghost views = parts@.map_values(|s: String| s@).skip(from as int);
    let mut out = String::new();
    let mut i = from;
    while i < parts.len()
        invariant
            from <= i <= parts@.len(),
            views == parts@.map_values(|s: String| s@).skip(from as int),
            out@ == join_dots(views.take(i - from)),
        decreases parts@.len() - i,
    {
        proof {
            assert(views.take(i + 1 - from).drop_last() =~= views.take(i - from));
        }
        if i > from {
            push_char(&mut out, '.');
        }
        push_str(&mut out, parts[i].as_str());
        i = i + 1;
        assert(out@ =~= join_dots(views.take(i - from)));
    }
    assert(views.take(parts@.len() - from) =~= views);
    out
}

impl NameIndex {
    fn push_project_hits(&self, glob_mode: bool, pat: &String, found: &mut Vec<Reference>)
        ensures
            refs_view(final(found)@) == refs_view(old(found)@) + project_hits(
                self.project_entries(),
                glob_mode,
                pat@,
            ),
    {
        let ghost start = refs_view(found@);
        let mut i: usize = 0;
        while i < self.projects.len()
            invariant
                i <= self.projects@.len(),
                refs_view(found@) == start + project_hits(
                    self.projects@.take(i as int),
                    glob_mode,
                    pat@,
                ),
            decreases self.projects@.len() - i,
        {
            proof {
                use_type_invariant(self);
                assert(self.projects@.take(i + 1).drop_last() =~= self.projects@.take(i as int));
            }
            let ghost before = found@;
            if name_hit(glob_mode, pat, &self.project_names[i]) {
                found.push(Reference::Project(self.projects[i].id.clone()));
                assert(refs_view(found@) =~= refs_view(before).push(found@.last()@));
            }
            i = i + 1;
        }
        assert(self.projects@.take(self.projects@.len() as int) =~= self.projects@);
    }

    fn push_list_hits(&self, glob_mode: bool, pat: &String, found: &mut Vec<Reference>)
        ensures
            refs_view(final(found)@) == refs_view(old(found)@) + list_hits(
                self.list_entries(),
                glob_mode,
                pat@,
            ),
    {
        let ghost start = refs_view(found@);
        let mut i: usize = 0;
        while i < self.lists.len()
            invariant
                i <= self.lists@.len(),
                refs_view(found@) == start + list_hits(self.lists@.take(i as int), glob_mode, pat@),
            decreases self.lists@.len() - i,
        {
            proof {
                use_type_invariant(self);
                assert(self.lists@.take(i + 1).drop_last() =~= self.lists@.take(i as int));
            }
            let ghost before = found@;
            if name_hit(glob_mode, pat, &self.list_names[i]) {
                found.push(Reference::List(self.lists[i].id.clone()));
                assert(refs_view(found@) =~= refs_view(before).push(found@.last()@));
            }
            i = i + 1;
        }
        assert(self.lists@.take(self.lists@.len() as int) =~= self.lists@);
    }

    fn push_user_hits(&self, glob_mode: bool, pat: &String, found: &mut Vec<Reference>)
        ensures
            refs_view(final(found)@) == refs_view(old(found)@) + user_hits(
                self.user_entries(),
                glob_mode,
                pat@,
            ),
    {
        let ghost start = refs_view(found@);
        let mut i: usize = 0;
        while i < self.users.len()
            invariant
                i <= self.users@.len(),
                refs_view(found@) == start + user_hits(self.users@.take(i as int), glob_mode, pat@),
            decreases self.users@.len() - i,
        {
            proof {
                use_type_invariant(self);
                assert(self.users@.take(i + 1).drop_last() =~= self.users@.take(i as int));
            }
            let ghost before = found@;
            if name_hit(glob_mode, pat, &self.user_names[i]) || name_hit(
                glob_mode,
                pat,
                &self.user_handles[i],
            ) {
                found.push(Reference::User(self.users[i].id.clone()));
                assert(refs_view(found@) =~= refs_view(before).push(found@.last()@));
            }
            i = i + 1;
        }
        assert(self.users@.take(self.users@.len() as int) =~= self.users@);
    }

    fn has_project_named(&self, id: &String, glob_mode: bool, pat: &String) -> (r: bool)
        ensures
            r == project_named(self.project_entries(), id@, glob_mode, pat@),
    {
        proof {
            use_type_invariant(self);
        }
        let mut j: usize = 0;
        while j < self.projects.len()
            invariant
                j <= self.projects@.len(),
                self.project_names@.len() == self.projects@.len(),
                forall|k: int|
                    0 <= k < self.projects@.len() ==> #[trigger] self.project_names@[k]@ == folded(
                        self.projects@[k].name@,
                    ),
                forall|k: int|
                    0 <= k < j ==> !(#[trigger] self.projects@[k].id@ == id@ && name_hits(
                        glob_mode,
                        pat@,
                        folded(self.projects@[k].name@),
                    )),
            decreases self.projects@.len() - j,
        {
            if same_text(self.projects[j].id.as_str(), id.as_str()) && name_hit(
                glob_mode,
                pat,
                &self.project_names[j],
            ) {
                return true;
            }
            j = j + 1;
        }
        false
    }

    fn push_qualified_hits(
        &self,
        glob_mode: bool,
        ppat: &String,
        lpat: &String,
        found: &mut Vec<Reference>,
    )
        ensures
            refs_view(final(found)@) == refs_view(old(found)@) + qualified_hits(
                self.list_entries(),
                self.project_entries(),
                glob_mode,
                ppat@,
                lpat@,
            ),
    {
        let ghost start = refs_view(found@);
        let mut i: usize = 0;
        while i < self.lists.len()
            invariant
                i <= self.lists@.len(),
                refs_view(found@) == start + qualified_hits(
                    self.lists@.take(i as int),
                    self.projects@,
                    glob_mode,
                    ppat@,
                    lpat@,
                ),
            decreases self.lists@.len() - i,
        {
            proof {
                use_type_invariant(self);
                assert(self.lists@.take(i + 1).drop_last() =~= self.lists@.take(i as int));
            }
            let ghost before = found@;
            if name_hit(glob_mode, lpat, &self.list_names[i]) && self.has_project_named(
                &self.lists[i].project_id,
                glob_mode,
                ppat,
            ) {
                found.push(Reference::List(self.lists[i].id.clone()));
                assert(refs_view(found@) =~= refs_view(before).push(found@.last()@));
            }
            i = i + 1;
        }
        assert(self.lists@.take(self.lists@.len() as int) =~= self.lists@);
    }
}

/// What a reference is shown as, without the `@` and the kind prefix, or
/// `None` when its target no longer exists.
pub open spec fn render_body(
    ps: Seq<ProjectEntry>,
    ls: Seq<ListEntry>,
    us: Seq<UserEntry>,
    r: ReferenceView,
    lang: Lang,
) -> Option<Seq<char>> {
    match r {
        ReferenceView::Due(spec) => Some(due_spelled(spec, lang)),
        ReferenceView::Status(k) => Some(status_spelled(k, lang)),
        ReferenceView::Project(id) => match id_from(project_ids(ps), id, 0) {
            Some(i) => Some(quoted_name(ps[i].name@)),
            None => None,
        },
        ReferenceView::List(id) => match id_from(list_ids(ls), id, 0) {
            Some(i) => match id_from(project_ids(ps), ls[i].project_id@, 0) {
                Some(j) => Some(quoted_name(ps[j].name@) + seq!['.'] + quoted_name(ls[i].name@)),
                None => None,
            },
            None => None,
        },
        ReferenceView::User(id) => match id_from(user_ids(us), id, 0) {
            Some(i) => Some(
                quoted_name(
                    if us[i].display_name@.len() == 0 {
                        us[i].handle@
                    } else {
                        us[i].display_name@
                    },
                ),
            ),
            None => None,
        },
    }
}

/// The token shown in the search box for a reference.
pub open spec fn rendered(
    ps: Seq<ProjectEntry>,
    ls: Seq<ListEntry>,
    us: Seq<UserEntry>,
    r: ReferenceView,
    lang: Lang,
    explicit: bool,
) -> Option<Seq<char>> {
    match render_body(ps, ls, us, r, lang) {
        Some(body) => Some(
            if explicit {
                seq!['@'] + kind_spelled(ref_kind(r), lang) + seq![':'] + body
            } else {
                seq!['@'] + body
            },
        ),
        None => None,
    }
}

/// The value of an optional string.
pub open spec fn text_option(o: Option<String>) -> Option<Seq<char>> {
    match o {
        Some(s) => Some(s@),
        None => None,
    }
}

impl NameIndex {
    /// Everything an `@` word names, in the order candidates are offered.
    pub fn resolve(&self, word: &AtWord) -> (r: Vec<Reference>)
        ensures
            refs_view(r@) == resolved(
                self.project_entries(),
                self.list_entries(),
                self.user_entries(),
                word@,
            ),
    {
        let mut found: Vec<Reference> = Vec::new();
        if let Some(id) = &word.id {
            let reference = match word.kind {
                Some(RefKind::Project) => Reference::Project(id.clone()),
                Some(RefKind::List) => Reference::List(id.clone()),
                Some(RefKind::User) => Reference::User(id.clone()),
                _ => {
                    assert(refs_view(found@) =~= Seq::<ReferenceView>::empty());
                    return found;
                },
            };
            if self.still_exists(&reference) {
                found.push(reference);
            }
            assert(refs_view(found@) =~= resolved(
                self.project_entries(),
                self.list_entries(),
                self.user_entries(),
                word@,
            ));
            return found;
        }
        if word.wildcard {
            self.resolve_pattern(word, &mut found);
            return found;
        }
        let whole = fold(word.whole_name().as_str());
        assert(refs_view(found@) =~= Seq::<ReferenceView>::empty());
        if !word.quoted && word.parts.len() == 1 {
            if allows(word, RefKind::Due) {
                if let Some(spec) = DueSpec::parse(whole.as_str()) {
                    found.push(Reference::Due(spec));
                }
            }
            let ghost before = found@;
            if allows(word, RefKind::Status) {
                if let Some(status) = StatusKey::parse(whole.as_str()) {
                    found.push(Reference::Status(status));
                }
            }
            assert(refs_view(found@) =~= keyword_refs(word@, whole@));
        }
        assert(refs_view(found@) =~= keyword_refs(word@, whole@));
        let ghost after_keywords = refs_view(found@);
        if allows(word, RefKind::Project) {
            self.push_project_hits(false, &whole, &mut found);
        }
        let ghost after_projects = refs_view(found@);
        if allows(word, RefKind::List) {
            self.push_list_hits(false, &whole, &mut found);
            if word.parts.len() >= 2 {
                let project = fold(word.parts[0].as_str());
                let list = fold(join_from(&word.parts, 1).as_str());
                self.push_qualified_hits(false, &project, &list, &mut found);
            }
        }
        let ghost after_lists = refs_view(found@);
        if allows(word, RefKind::User) {
            self.push_user_hits(false, &whole, &mut found);
        }
        proof {
            let ps = self.project_entries();
            let ls = self.list_entries();
            let us = self.user_entries();
            let w = word@;
            if w.parts.len() >= 2 {
                assert(w.parts[0] == word.parts@[0]@);
            }
            assert(refs_view(found@) =~= exact_refs(ps, ls, us, w));
        }
        dedup(found)
    }

    fn resolve_pattern(&self, word: &AtWord, found: &mut Vec<Reference>)
        requires
            word@.id is None,
            word@.wildcard,
            old(found)@.len() == 0,
        ensures
            refs_view(final(found)@) == resolved(
                self.project_entries(),
                self.list_entries(),
                self.user_entries(),
                word@,
            ),
    {
        let ghost w = word@;
        let ghost folded_parts = w.parts.map_values(|part: Seq<char>| folded(part));
        let mut parts: Vec<String> = Vec::new();
        let mut i: usize = 0;
        while i < word.parts.len()
            invariant
                w == word@,
                folded_parts == w.parts.map_values(|part: Seq<char>| folded(part)),
                i <= word.parts@.len(),
                parts@.len() == i,
                forall|k: int| 0 <= k < i ==> #[trigger] parts@[k]@ == folded_parts[k],
            decreases word.parts@.len() - i,
        {
            assert(w.parts[i as int] == word.parts@[i as int]@);
            parts.push(fold(word.parts[i].as_str()));
            i = i + 1;
        }
        assert(parts@.map_values(|s: String| s@) =~= folded_parts);
        assert(refs_view(found@) =~= Seq::<ReferenceView>::empty());
        if parts.len() == 1 {
            let pattern = &parts[0];
            if allows(word, RefKind::Project) {
                self.push_project_hits(true, pattern, found);
            }
            let ghost after_projects = refs_view(found@);
            if allows(word, RefKind::List) {
                self.push_list_hits(true, pattern, found);
            }
            let ghost after_lists = refs_view(found@);
            if allows(word, RefKind::User) {
                self.push_user_hits(true, pattern, found);
            }
            assert(refs_view(found@) =~= resolved(
                self.project_entries(),
                self.list_entries(),
                self.user_entries(),
                word@,
            ));
        } else if parts.len() >= 2 && allows(word, RefKind::List) {
            let list = join_from(&parts, 1);
            self.push_qualified_hits(true, &parts[0], &list, found);
            assert(refs_view(found@) =~= resolved(
                self.project_entries(),
                self.list_entries(),
                self.user_entries(),
                word@,
            ));
        }
    }

    /// The token shown in the search box for a reference, or `None` when the
    /// target no longer exists.
    ///
    /// `explicit` keeps the `@<kind>:` prefix, for tokens the user typed that way.
    pub fn render(&self, reference: &Reference, lang: Lang, explicit: bool) -> (r: Option<String>)
        ensures
            text_option(r) == rendered(
                self.project_entries(),
                self.list_entries(),
                self.user_entries(),
                reference@,
                lang,
                explicit,
            ),
    {
        let body = match reference {
            Reference::Due(spec) => spec.spell(lang),
            Reference::Status(status) => String::from_str(status.spell(lang)),
            Reference::Project(id) => match self.project(id.as_str()) {
                Some(project) => quote_if_needed(project.name.as_str()),
                None => return None,
            },
            Reference::List(id) => {
                let list = match self.list(id.as_str()) {
                    Some(list) => list,
                    None => return None,
                };
                let project = match self.project(list.project_id.as_str()) {
                    Some(project) => project,
                    None => return None,
                };
                let mut body = quote_if_needed(project.name.as_str());
                push_char(&mut body, '.');
                let tail = quote_if_needed(list.name.as_str());
                push_str(&mut body, tail.as_str());
                body
            },
            Reference::User(id) => match self.user(id.as_str()) {
                Some(user) => {
                    if user.display_name.as_str().unicode_len() == 0 {
                        quote_if_needed(user.handle.as_str())
                    } else {
                        quote_if_needed(user.display_name.as_str())
                    }
                },
                None => return None,
            },
        };
        let mut out = String::new();
        push_char(&mut out, '@');
        if explicit {
            push_str(&mut out, reference.kind().spell(lang));
            push_char(&mut out, ':');
        }
        push_str(&mut out, body.as_str());
        assert(Some(out@) == rendered(
            self.project_entries(),
            self.list_entries(),
            self.user_entries(),
            reference@,
            lang,
            explicit,
        ));
        Some(out)
    }

    /// Whether `text` still names `reference`, i.e. the token needs no rewrite.
    pub fn describes(&self, text: &str, reference: &Reference) -> (r: bool)
        ensures
            r == (read_term_of(text@) matches RawTermView::At(w) && resolved(
                self.project_entries(),
                self.list_entries(),
                self.user_entries(),
                w,
            ).contains(reference@)),
    {
        match read_term(text) {
            RawTerm::At(word) => contains_reference(&self.resolve(&word), reference),
            _ => false,
        }
    }
}

/// Whether the `@` token was written with an explicit `@<kind>:` prefix.
pub fn is_explicit(text: &str) -> (r: bool)
    ensures
        r == (read_term_of(text@) matches RawTermView::At(w) && w.kind is Some),
{
    match read_term(text) {
        RawTerm::At(word) => word.kind.is_some(),
        _ => false,
    }
}

} // verus!
