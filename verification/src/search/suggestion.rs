//! Candidates offered for the `@` or `#` word being typed, and for an `@` word
//! that named several targets.

use vstd::prelude::*;
use std::ops::Range;
use crate::search::document::{lemma_prefix_bytes, seg_span, seg_text, segs_view, QueryDocument, Segment, SegmentView};
use crate::search::due::{due_key, DueName, DueSpec};
use crate::search::lexer::{byte_offsets, char_tokens, char_tokens_of, first_colon, tokens_in_bounds, CharToken, TokenKind};
use crate::search::normalize::{fold, folded, spec_syntax_char, syntax_char};
use crate::search::resolve::{id_from, list_ids, project_ids, rendered, text_option, user_ids, ListEntry, NameIndex, ProjectEntry, Reference, ReferenceView, UserEntry};
use crate::search::vocabulary::{parse_kind, status_key_word, Lang, RefKind, StatusKey};
use crate::text::{byte_len, char_width, chars_of, lemma_byte_len_take, push_char, push_str, string_of_range, utf8_width};

verus! {

/// The most candidates shown at once; the list narrows as the user types.
pub const LIMIT: usize = 50;

#[derive(Debug, Clone, Copy, PartialEq, Eq, Structural)]
pub enum SuggestionKind {
    Due,
    Status,
    Project,
    TaskList,
    User,
    Tag,
}

/// What picking a suggestion puts into the query.
#[derive(Debug, PartialEq, Eq)]
pub enum SuggestionTarget {
    Ref(Reference),
    Tag(String),
}

/// The value of a [`SuggestionTarget`].
pub enum TargetView {
    Ref(ReferenceView),
    Tag(Seq<char>),
}

impl View for SuggestionTarget {
    type V = TargetView;

    open spec fn view(&self) -> TargetView {
        match self {
            SuggestionTarget::Ref(r) => TargetView::Ref(r@),
            SuggestionTarget::Tag(t) => TargetView::Tag(t@),
        }
    }
}

impl Clone for SuggestionTarget {
    fn clone(&self) -> (r: Self)
        ensures
            r@ == self@,
    {
        match self {
            SuggestionTarget::Ref(r) => SuggestionTarget::Ref(r.clone()),
            SuggestionTarget::Tag(t) => SuggestionTarget::Tag(t.clone()),
        }
    }
}

/// One candidate, ready to display.
#[derive(Debug, PartialEq, Eq)]
pub struct Suggestion {
    /// The token as it would appear in the search box, e.g. `@仕事.今週やる`.
    pub label: String,
    pub kind: SuggestionKind,
    /// A due or state key, a list's project, or a user's handle; empty otherwise.
    pub detail: String,
    /// The project colour for projects and lists, empty when unset.
    pub color: String,
    /// A project's number of lists.
    pub count: usize,
    pub archived: bool,
    pub target: SuggestionTarget,
}

/// The value of a [`Suggestion`].
pub struct SuggestionView {
    pub label: Seq<char>,
    pub kind: SuggestionKind,
    pub detail: Seq<char>,
    pub color: Seq<char>,
    pub count: usize,
    pub archived: bool,
    pub target: TargetView,
}

impl View for Suggestion {
    type V = SuggestionView;

    open spec fn view(&self) -> SuggestionView {
        SuggestionView {
            label: self.label@,
            kind: self.kind,
            detail: self.detail@,
            color: self.color@,
            count: self.count,
            archived: self.archived,
            target: self.target@,
        }
    }
}

impl Clone for Suggestion {
    fn clone(&self) -> (r: Self)
        ensures
            r@ == self@,
    {
        Suggestion {
            label: self.label.clone(),
            kind: self.kind,
            detail: self.detail.clone(),
            color: self.color.clone(),
            count: self.count,
            archived: self.archived,
            target: self.target.clone(),
        }
    }
}

pub open spec fn suggestions_view(v: Seq<Suggestion>) -> Seq<SuggestionView> {
    v.map_values(|s: Suggestion| s@)
}

/// The `@` or `#` word the user is typing.
#[derive(Debug, PartialEq, Eq)]
pub struct ActiveToken {
    pub span: Range<usize>,
    pub text: String,
}

/// The value of an [`ActiveToken`].
pub struct ActiveView {
    pub start: int,
    pub end: int,
    pub text: Seq<char>,
}

impl View for ActiveToken {
    type V = ActiveView;

    open spec fn view(&self) -> ActiveView {
        ActiveView { start: self.span.start as int, end: self.span.end as int, text: self.text@ }
    }
}

impl Clone for ActiveToken {
    fn clone(&self) -> (r: Self)
        ensures
            r@ == self@,
    {
        ActiveToken { span: self.span.start..self.span.end, text: self.text.clone() }
    }
}

/// `<kind>:<value>` split at the first colon, when the part before it names a kind.
pub open spec fn colon_kind(t: Seq<char>) -> Option<(RefKind, Seq<char>)> {
    let c = first_colon(t, 0);
    if c >= t.len() {
        None
    } else {
        match parse_kind(folded(t.take(c))) {
            Some(k) => Some((k, t.skip(c + 1))),
            None => None,
        }
    }
}

/// The text after the sigil of a typed word: after its first byte when that
/// byte is a whole char, and nothing otherwise.
pub open spec fn after_sigil(text: Seq<char>) -> Seq<char> {
    if text.len() > 0 && utf8_width(text[0]) == 1 {
        text.skip(1)
    } else {
        Seq::empty()
    }
}

/// The kind a word names, e.g. `@user:yam`.
pub open spec fn active_kind(text: Seq<char>) -> Option<RefKind> {
    match colon_kind(after_sigil(text)) {
        Some((k, _)) => Some(k),
        None => None,
    }
}

/// Splits `chars[from..]` at its first colon when the part before it names a
/// kind: the kind, and where the value starts.
fn split_kind(chars: &Vec<char>, from: usize) -> (r: Option<(RefKind, usize)>)
    requires
        from <= chars@.len(),
    ensures
        match r {
            Some((k, at)) => from < at <= chars@.len() && colon_kind(chars@.skip(from as int))
                == Some((k, chars@.skip(at as int))),
            None => colon_kind(chars@.skip(from as int)) is None,
        },
{
    let ghost t = chars@.skip(from as int);
    let n = chars.len();
    let mut i = from;
    while i < n && syntax_char(chars[i]) != ':'
        invariant
            n == chars@.len(),
            t == chars@.skip(from as int),
            from <= i <= n,
            first_colon(t, i - from) == first_colon(t, 0),
        decreases n - i,
    {
        i = i + 1;
    }
    if i == n {
        return None;
    }
    proof {
        assert(t.skip(i + 1 - from) =~= chars@.skip(i + 1));
        assert(chars@.subrange(from as int, i as int) =~= t.take(i - from));
    }
    let prefix = string_of_range(chars.as_slice(), from, i);
    match RefKind::parse(fold(prefix.as_str()).as_str()) {
        Some(kind) => Some((kind, i + 1)),
        None => None,
    }
}

impl ActiveToken {
    /// Whether the word names its kind, e.g. `@user:yam`.
    pub fn kind(&self) -> (r: Option<RefKind>)
        ensures
            r == active_kind(self.text@),
    {
        let chars = chars_of(self.text.as_str());
        if chars.len() > 0 && char_width(chars[0]) == 1 {
            match split_kind(&chars, 1) {
                Some((kind, _)) => Some(kind),
                None => None,
            }
        } else {
            let none: Vec<char> = Vec::new();
            proof {
                assert(none@.skip(0) =~= Seq::<char>::empty());
            }
            match split_kind(&none, 0) {
                Some((kind, _)) => Some(kind),
                None => None,
            }
        }
    }
}

/// Whether the token `tok` of `t`, a text at byte `base`, is an `@` or `#`
/// word whose range holds the edit at `active`.
pub open spec fn is_active(t: Seq<char>, base: int, tok: CharToken, active: int) -> bool {
    &&& tok.kind == TokenKind::Word
    &&& base + byte_len(t.take(tok.start as int)) < active
    &&& active <= base + byte_len(t.take(tok.end as int))
    &&& (spec_syntax_char(t[tok.start as int]) == '@' || spec_syntax_char(t[tok.start as int]) == '#')
}

/// The first of `toks` that is active.
pub open spec fn active_among(t: Seq<char>, base: int, toks: Seq<CharToken>, active: int) -> Option<ActiveView>
    decreases toks.len(),
{
    if toks.len() == 0 {
        None
    } else if is_active(t, base, toks[0], active) {
        Some(ActiveView {
            start: base + byte_len(t.take(toks[0].start as int)),
            end: base + byte_len(t.take(toks[0].end as int)),
            text: t.subrange(toks[0].start as int, toks[0].end as int),
        })
    } else {
        active_among(t, base, toks.drop_first(), active)
    }
}

/// The active word of the first text segment from `i` on that has one.
pub open spec fn active_from(segs: Seq<SegmentView>, i: int, active: int) -> Option<ActiveView>
    decreases segs.len() - i,
{
    if i < 0 || i >= segs.len() {
        None
    } else {
        match segs[i] {
            SegmentView::Text(t) => match active_among(t, seg_span(segs, i).0, char_tokens_of(t), active) {
                Some(a) => Some(a),
                None => active_from(segs, i + 1, active),
            },
            _ => active_from(segs, i + 1, active),
        }
    }
}

pub open spec fn active_option(o: Option<ActiveToken>) -> Option<ActiveView> {
    match o {
        Some(a) => Some(a@),
        None => None,
    }
}

/// The active word of a text segment spanning `start..end`.
fn active_in_text(text: &str, start: usize, end: usize, active: usize) -> (r: Option<ActiveToken>)
    requires
        start + byte_len(text@) == end,
    ensures
        active_option(r) == active_among(text@, start as int, char_tokens_of(text@), active as int),
{
    let chars = chars_of(text);
    let toks = char_tokens(&chars);
    let offsets = byte_offsets(&chars);
    let mut k: usize = 0;
    assert(toks@.skip(0) =~= toks@);
    while k < toks.len()
        invariant
            chars@ == text@,
            toks@ == char_tokens_of(text@),
            tokens_in_bounds(toks@, 0, chars@.len() as int),
            offsets@.len() == chars@.len() + 1,
            forall|i: int| 0 <= i <= chars@.len() ==> #[trigger] offsets@[i] == byte_len(chars@.take(i)),
            start + byte_len(text@) == end,
            k <= toks@.len(),
            active_among(text@, start as int, toks@, active as int) == active_among(
                text@,
                start as int,
                toks@.skip(k as int),
                active as int,
            ),
        decreases toks@.len() - k,
    {
        let tok = toks[k];
        assert(0 <= tok.start < tok.end <= chars@.len());
        proof {
            lemma_byte_len_take(chars@, tok.start as int, tok.end as int);
            assert(toks@.skip(k as int)[0] == tok);
            assert(toks@.skip(k as int).drop_first() =~= toks@.skip(k + 1));
        }
        let from = start + offsets[tok.start];
        let to = start + offsets[tok.end];
        let sigil = syntax_char(chars[tok.start]);
        if tok.kind == TokenKind::Word && from < active && active <= to && (sigil == '@' || sigil == '#') {
            let word = string_of_range(chars.as_slice(), tok.start, tok.end);
            return Some(ActiveToken { span: from..to, text: word });
        }
        k = k + 1;
    }
    None
}

/// Finds the `@` / `#` word in free text that the edit at `active` ended in.
pub fn active_token(document: &QueryDocument, active: usize) -> (r: Option<ActiveToken>)
    ensures
        active_option(r) == active_from(document@, 0, active as int),
{
    let ghost segs = document@;
    let segments = document.segments();
    let spans = document.spans();
    let mut i: usize = 0;
    while i < segments.len()
        invariant
            segs == document@,
            segs_view(segments@) == segs,
            spans@.len() == segs.len(),
            forall|j: int|
                0 <= j < spans@.len() ==> (#[trigger] spans@[j]).start == seg_span(segs, j).0
                    && spans@[j].end == seg_span(segs, j).1,
            i <= segs.len(),
            active_from(segs, 0, active as int) == active_from(segs, i as int, active as int),
        decreases segs.len() - i,
    {
        assert(segs[i as int] == segments@[i as int]@);
        match &segments[i] {
            Segment::Text(text) => {
                proof {
                    lemma_prefix_bytes(segs, i as int);
                }
                let found = active_in_text(text.as_str(), spans[i].start, spans[i].end, active);
                if found.is_some() {
                    return found;
                }
            },
            _ => {},
        }
        i = i + 1;
    }
    None
}

/// The suggestion shown for a reference, or `None` when its target is gone.
pub open spec fn described(
    ps: Seq<ProjectEntry>,
    ls: Seq<ListEntry>,
    us: Seq<UserEntry>,
    r: ReferenceView,
    lang: Lang,
) -> Option<SuggestionView> {
    match rendered(ps, ls, us, r, lang, false) {
        None => None,
        Some(label) => {
            let plain = SuggestionView {
                label,
                kind: SuggestionKind::Due,
                detail: Seq::empty(),
                color: Seq::empty(),
                count: 0,
                archived: false,
                target: TargetView::Ref(r),
            };
            match r {
                ReferenceView::Due(spec) => Some(SuggestionView { detail: due_key(spec), ..plain }),
                ReferenceView::Status(s) => Some(
                    SuggestionView { kind: SuggestionKind::Status, detail: status_key_word(s), ..plain },
                ),
                ReferenceView::Project(id) => match id_from(project_ids(ps), id, 0) {
                    Some(k) => Some(
                        SuggestionView {
                            kind: SuggestionKind::Project,
                            color: ps[k].color@,
                            count: ps[k].list_count,
                            archived: ps[k].archived,
                            ..plain
                        },
                    ),
                    None => None,
                },
                ReferenceView::List(id) => match id_from(list_ids(ls), id, 0) {
                    Some(k) => match id_from(project_ids(ps), ls[k].project_id@, 0) {
                        Some(p) => Some(
                            SuggestionView {
                                kind: SuggestionKind::TaskList,
                                detail: ps[p].name@,
                                color: ps[p].color@,
                                archived: ps[p].archived,
                                ..plain
                            },
                        ),
                        None => None,
                    },
                    None => None,
                },
                ReferenceView::User(id) => match id_from(user_ids(us), id, 0) {
                    Some(k) => Some(
                        SuggestionView {
                            kind: SuggestionKind::User,
                            detail: seq!['@'] + us[k].handle@,
                            ..plain
                        },
                    ),
                    None => None,
                },
            }
        },
    }
}

/// The suggestions for each of `refs` whose target still exists, in order.
pub open spec fn described_all(
    ps: Seq<ProjectEntry>,
    ls: Seq<ListEntry>,
    us: Seq<UserEntry>,
    refs: Seq<ReferenceView>,
    lang: Lang,
) -> Seq<SuggestionView>
    decreases refs.len(),
{
    if refs.len() == 0 {
        Seq::empty()
    } else {
        let front = described_all(ps, ls, us, refs.drop_last(), lang);
        match described(ps, ls, us, refs.last(), lang) {
            Some(s) => front.push(s),
            None => front,
        }
    }
}

pub open spec fn suggestion_option(o: Option<Suggestion>) -> Option<SuggestionView> {
    match o {
        Some(s) => Some(s@),
        None => None,
    }
}

fn describe(reference: &Reference, index: &NameIndex, lang: Lang) -> (r: Option<Suggestion>)
    ensures
        suggestion_option(r) == described(
            index.project_entries(),
            index.list_entries(),
            index.user_entries(),
            reference@,
            lang,
        ),
{
    let label = match index.render(reference, lang, false) {
        Some(label) => label,
        None => return None,
    };
    let target = SuggestionTarget::Ref(reference.clone());
    match reference {
        Reference::Due(spec) => Some(
            Suggestion {
                label,
                kind: SuggestionKind::Due,
                detail: spec.key(),
                color: String::new(),
                count: 0,
                archived: false,
                target,
            },
        ),
        Reference::Status(status) => Some(
            Suggestion {
                label,
                kind: SuggestionKind::Status,
                detail: String::from_str(status.key()),
                color: String::new(),
                count: 0,
                archived: false,
                target,
            },
        ),
        Reference::Project(id) => match index.project(id.as_str()) {
            Some(project) => Some(
                Suggestion {
                    label,
                    kind: SuggestionKind::Project,
                    detail: String::new(),
                    color: project.color.clone(),
                    count: project.list_count,
                    archived: project.archived,
                    target,
                },
            ),
            None => None,
        },
        Reference::List(id) => {
            let list = match index.list(id.as_str()) {
                Some(list) => list,
                None => return None,
            };
            match index.project(list.project_id.as_str()) {
                Some(project) => Some(
                    Suggestion {
                        label,
                        kind: SuggestionKind::TaskList,
                        detail: project.name.clone(),
                        color: project.color.clone(),
                        count: 0,
                        archived: project.archived,
                        target,
                    },
                ),
                None => None,
            }
        },
        Reference::User(id) => match index.user(id.as_str()) {
            Some(user) => {
                let mut detail = String::new();
                push_char(&mut detail, '@');
                push_str(&mut detail, user.handle.as_str());
                assert(detail@ =~= seq!['@'] + user.handle@);
                Some(
                    Suggestion {
                        label,
                        kind: SuggestionKind::User,
                        detail,
                        color: String::new(),
                        count: 0,
                        archived: false,
                        target,
                    },
                )
            },
            None => None,
        },
    }
}

/// The suggestions for each of `references` whose target still exists, appended to `out`.
fn describe_all(out: &mut Vec<Suggestion>, references: &[Reference], index: &NameIndex, lang: Lang)
    ensures
        suggestions_view(final(out)@) == suggestions_view(old(out)@) + described_all(
            index.project_entries(),
            index.list_entries(),
            index.user_entries(),
            crate::search::resolve::refs_view(references@),
            lang,
        ),
{
    let ghost refs = crate::search::resolve::refs_view(references@);
    let ghost ps = index.project_entries();
    let ghost ls = index.list_entries();
    let ghost us = index.user_entries();
    let mut i: usize = 0;
    assert(refs.take(0) =~= Seq::<ReferenceView>::empty());
    while i < references.len()
        invariant
            refs == crate::search::resolve::refs_view(references@),
            ps == index.project_entries(),
            ls == index.list_entries(),
            us == index.user_entries(),
            i <= references@.len(),
            suggestions_view(out@) == suggestions_view(old(out)@) + described_all(ps, ls, us, refs.take(i as int), lang),
        decreases references@.len() - i,
    {
        let ghost before = suggestions_view(out@);
        proof {
            assert(refs.take(i + 1).drop_last() =~= refs.take(i as int));
            assert(refs.take(i + 1).last() == references@[i as int]@);
        }
        match describe(&references[i], index, lang) {
            Some(s) => {
                out.push(s);
                assert(suggestions_view(out@) =~= before.push(s@));
            },
            None => {
                assert(suggestions_view(out@) == before);
            },
        }
        assert(suggestions_view(out@) =~= suggestions_view(old(out)@) + described_all(ps, ls, us, refs.take(i + 1), lang));
        i = i + 1;
    }
    assert(refs.take(references@.len() as int) =~= refs);
}

/// Candidates for an ambiguous token, in the order they were resolved.
pub fn candidates(references: &[Reference], index: &NameIndex, lang: Lang) -> (r: Vec<Suggestion>)
    ensures
        suggestions_view(r@) == described_all(
            index.project_entries(),
            index.list_entries(),
            index.user_entries(),
            crate::search::resolve::refs_view(references@),
            lang,
        ),
{
    let mut out: Vec<Suggestion> = Vec::new();
    assert(suggestions_view(out@) =~= Seq::<SuggestionView>::empty());
    describe_all(&mut out, references, index, lang);
    out
}


/// Whether `a` comes before `b` in code point order, the order of `str`.
pub open spec fn text_lt(a: Seq<char>, b: Seq<char>) -> bool
    decreases a.len(),
{
    if a.len() == 0 {
        b.len() > 0
    } else if b.len() == 0 {
        false
    } else if a[0] != b[0] {
        (a[0] as u32) < (b[0] as u32)
    } else {
        text_lt(a.drop_first(), b.drop_first())
    }
}

/// Whether `a` comes before `b` in code point order.
pub fn text_less(a: &Vec<char>, b: &Vec<char>) -> (r: bool)
    ensures
        r == text_lt(a@, b@),
{
    let mut i: usize = 0;
    assert(a@.skip(0) =~= a@);
    assert(b@.skip(0) =~= b@);
    while i < a.len() && i < b.len() && a[i] == b[i]
        invariant
            i <= a@.len(),
            i <= b@.len(),
            text_lt(a@, b@) == text_lt(a@.skip(i as int), b@.skip(i as int)),
        decreases a@.len() - i,
    {
        proof {
            assert(a@.skip(i as int).drop_first() =~= a@.skip(i + 1));
            assert(b@.skip(i as int).drop_first() =~= b@.skip(i + 1));
        }
        i = i + 1;
    }
    if i == a.len() {
        i < b.len()
    } else if i == b.len() {
        false
    } else {
        (a[i] as u32) < (b[i] as u32)
    }
}

/// `x` inserted into `s` after every entry whose key does not come after its key.
pub open spec fn insert_by_text(s: Seq<(Seq<char>, Seq<char>)>, x: (Seq<char>, Seq<char>)) -> Seq<(Seq<char>, Seq<char>)>
    decreases s.len(),
{
    if s.len() == 0 {
        seq![x]
    } else if !text_lt(x.0, s.last().0) {
        s.push(x)
    } else {
        insert_by_text(s.drop_last(), x).push(s.last())
    }
}

/// `s` stably sorted by key.
pub open spec fn sorted_by_text(s: Seq<(Seq<char>, Seq<char>)>) -> Seq<(Seq<char>, Seq<char>)>
    decreases s.len(),
{
    if s.len() == 0 {
        s
    } else {
        insert_by_text(sorted_by_text(s.drop_last()), s.last())
    }
}

/// `s` without the entries whose key equals that of the entry kept before them.
pub open spec fn dedup_by_text(s: Seq<(Seq<char>, Seq<char>)>) -> Seq<(Seq<char>, Seq<char>)>
    decreases s.len(),
{
    if s.len() == 0 {
        s
    } else {
        let rest = dedup_by_text(s.drop_last());
        if rest.len() > 0 && rest.last().0 == s.last().0 {
            rest
        } else {
            rest.push(s.last())
        }
    }
}

/// The entries of `s` whose key starts with `needle`.
pub open spec fn with_key_prefix(s: Seq<(Seq<char>, Seq<char>)>, needle: Seq<char>) -> Seq<(Seq<char>, Seq<char>)>
    decreases s.len(),
{
    if s.len() == 0 {
        s
    } else {
        let front = with_key_prefix(s.drop_last(), needle);
        if crate::text::starts_with(s.last().0, needle) {
            front.push(s.last())
        } else {
            front
        }
    }
}

/// Each tag with its folded name as key.
pub open spec fn tag_entries(tags: Seq<String>) -> Seq<(Seq<char>, Seq<char>)> {
    tags.map_values(|t: String| (folded(t@), t@))
}

pub open spec fn tag_suggestion(name: Seq<char>) -> SuggestionView {
    SuggestionView {
        label: seq!['#'] + name,
        kind: SuggestionKind::Tag,
        detail: Seq::empty(),
        color: Seq::empty(),
        count: 0,
        archived: false,
        target: TargetView::Tag(name),
    }
}

/// Tags whose folded name starts with the folded `typed`, once per folded
/// name and in the order of their folded names, at most [`LIMIT`] of them.
pub open spec fn tag_suggested(typed: Seq<char>, tags: Seq<String>) -> Seq<SuggestionView> {
    let kept = with_key_prefix(dedup_by_text(sorted_by_text(tag_entries(tags))), folded(typed));
    kept.take(if kept.len() < LIMIT { kept.len() as int } else { LIMIT as int }).map_values(
        |e: (Seq<char>, Seq<char>)| tag_suggestion(e.1),
    )
}

pub open spec fn pairs_view(v: Seq<(String, String)>) -> Seq<(Seq<char>, Seq<char>)> {
    v.map_values(|p: (String, String)| (p.0@, p.1@))
}

proof fn lemma_insert_by_text_at(s: Seq<(Seq<char>, Seq<char>)>, x: (Seq<char>, Seq<char>), j: int)
    requires
        0 <= j <= s.len(),
        forall|k: int| j <= k < s.len() ==> text_lt(x.0, #[trigger] s[k].0),
        j > 0 ==> !text_lt(x.0, s[j - 1].0),
    ensures
        insert_by_text(s, x) == s.take(j) + seq![x] + s.skip(j),
    decreases s.len(),
{
    if s.len() == 0 {
        assert(s.take(j) + seq![x] + s.skip(j) =~= seq![x]);
    } else if j == s.len() {
        assert(s.take(j) + seq![x] + s.skip(j) =~= s.push(x));
    } else {
        let t = s.drop_last();
        assert forall|k: int| j <= k < t.len() implies text_lt(x.0, #[trigger] t[k].0) by {
            assert(t[k] == s[k]);
        }
        lemma_insert_by_text_at(t, x, j);
        assert(t.take(j) + seq![x] + t.skip(j) + seq![s.last()] =~= s.take(j) + seq![x] + s.skip(j));
    }
}

/// The tags keyed by folded name, stably sorted by key.
fn sorted_tags(tags: &[String]) -> (r: Vec<(String, String)>)
    ensures
        pairs_view(r@) == sorted_by_text(tag_entries(tags@)),
{
    let ghost all = tag_entries(tags@);
    let mut out: Vec<(String, String)> = Vec::new();
    let mut i: usize = 0;
    assert(all.take(0) =~= Seq::<(Seq<char>, Seq<char>)>::empty());
    assert(pairs_view(out@) =~= Seq::<(Seq<char>, Seq<char>)>::empty());
    while i < tags.len()
        invariant
            all == tag_entries(tags@),
            i <= tags@.len(),
            pairs_view(out@) == sorted_by_text(all.take(i as int)),
        decreases tags@.len() - i,
    {
        let key = fold(tags[i].as_str());
        let x = (key, tags[i].clone());
        let ghost xv = (x.0@, x.1@);
        proof {
            assert(all.take(i + 1).drop_last() =~= all.take(i as int));
            assert(all.take(i + 1).last() == xv);
        }
        let key_chars = chars_of(x.0.as_str());
        let mut j = out.len();
        while j > 0 && text_less(&key_chars, &chars_of(out[j - 1].0.as_str()))
            invariant
                j <= out@.len(),
                key_chars@ == xv.0,
                forall|k: int| j <= k < out@.len() ==> text_lt(xv.0, #[trigger] pairs_view(out@)[k].0),
            decreases j,
        {
            j = j - 1;
        }
        proof {
            lemma_insert_by_text_at(pairs_view(out@), xv, j as int);
        }
        out.insert(j, x);
        assert(pairs_view(out@) =~= sorted_by_text(all.take(i + 1)));
        i = i + 1;
    }
    assert(all.take(tags@.len() as int) =~= all);
    out
}

/// Tags whose folded name starts with the folded `typed`.
fn tag_suggestions(typed: &str, tags: &[String]) -> (r: Vec<Suggestion>)
    ensures
        suggestions_view(r@) == tag_suggested(typed@, tags@),
{
    let needle = fold(typed);
    let sorted = sorted_tags(tags);
    let ghost all = pairs_view(sorted@);
    let ghost deduped = dedup_by_text(all);
    let ghost kept = with_key_prefix(deduped, needle@);
    let mut unique: Vec<(String, String)> = Vec::new();
    let mut i: usize = 0;
    assert(all.take(0) =~= Seq::<(Seq<char>, Seq<char>)>::empty());
    assert(pairs_view(unique@) =~= Seq::<(Seq<char>, Seq<char>)>::empty());
    while i < sorted.len()
        invariant
            all == pairs_view(sorted@),
            i <= sorted@.len(),
            pairs_view(unique@) == dedup_by_text(all.take(i as int)),
        decreases sorted@.len() - i,
    {
        proof {
            assert(all.take(i + 1).drop_last() =~= all.take(i as int));
            assert(all.take(i + 1).last() == (sorted@[i as int].0@, sorted@[i as int].1@));
        }
        let repeat = unique.len() > 0 && crate::text::same_text(unique[unique.len() - 1].0.as_str(), sorted[i].0.as_str());
        if !repeat {
            unique.push((sorted[i].0.clone(), sorted[i].1.clone()));
        }
        assert(pairs_view(unique@) =~= dedup_by_text(all.take(i + 1)));
        i = i + 1;
    }
    assert(all.take(sorted@.len() as int) =~= all);
    let mut out: Vec<Suggestion> = Vec::new();
    let ghost ukept = pairs_view(unique@);
    let mut k: usize = 0;
    assert(ukept.take(0) =~= Seq::<(Seq<char>, Seq<char>)>::empty());
    while k < unique.len() && out.len() < LIMIT
        invariant
            ukept == pairs_view(unique@),
            ukept == deduped,
            kept == with_key_prefix(deduped, needle@),
            k <= unique@.len(),
            out@.len() <= LIMIT,
            with_key_prefix(ukept.take(k as int), needle@).len() == out@.len(),
            suggestions_view(out@) == with_key_prefix(ukept.take(k as int), needle@).map_values(
                |e: (Seq<char>, Seq<char>)| tag_suggestion(e.1),
            ),
        decreases unique@.len() - k,
    {
        proof {
            assert(ukept.take(k + 1).drop_last() =~= ukept.take(k as int));
            assert(ukept.take(k + 1).last() == (unique@[k as int].0@, unique@[k as int].1@));
        }
        let ghost e = (unique@[k as int].0@, unique@[k as int].1@);
        let ghost front = with_key_prefix(ukept.take(k as int), needle@);
        let ghost before = suggestions_view(out@);
        let starts = crate::text::starts_with_text(unique[k].0.as_str(), needle.as_str());
        proof {
            assert(with_key_prefix(ukept.take(k + 1), needle@) == if starts { front.push(e) } else { front });
            assert(front.push(e).map_values(|e: (Seq<char>, Seq<char>)| tag_suggestion(e.1)) =~= front.map_values(
                |e: (Seq<char>, Seq<char>)| tag_suggestion(e.1),
            ).push(tag_suggestion(e.1)));
        }
        if starts {
            let name = unique[k].1.clone();
            let mut label = String::new();
            push_char(&mut label, '#');
            push_str(&mut label, name.as_str());
            assert(label@ =~= seq!['#'] + name@);
            let target = SuggestionTarget::Tag(name);
            out.push(
                Suggestion {
                    label,
                    kind: SuggestionKind::Tag,
                    detail: String::new(),
                    color: String::new(),
                    count: 0,
                    archived: false,
                    target,
                },
            );
            assert(suggestions_view(out@) =~= before.push(tag_suggestion(e.1)));
        }
        assert(suggestions_view(out@) =~= with_key_prefix(ukept.take(k + 1), needle@).map_values(
            |e: (Seq<char>, Seq<char>)| tag_suggestion(e.1),
        ));
        k = k + 1;
    }
    proof {
        lemma_prefix_take(ukept, k as int, needle@);
        let limit = if kept.len() < LIMIT { kept.len() as int } else { LIMIT as int };
        assert(suggestions_view(out@) =~= kept.take(limit).map_values(
            |e: (Seq<char>, Seq<char>)| tag_suggestion(e.1),
        ));
    }
    out
}

/// Reading the entries up to `k` gives a prefix of what reading all of them
/// gives, and all of it when `k` reaches the end.
proof fn lemma_prefix_take(s: Seq<(Seq<char>, Seq<char>)>, k: int, needle: Seq<char>)
    requires
        0 <= k <= s.len(),
    ensures
        with_key_prefix(s, needle).take(with_key_prefix(s.take(k), needle).len() as int)
            == with_key_prefix(s.take(k), needle),
        with_key_prefix(s.take(k), needle).len() <= with_key_prefix(s, needle).len(),
        k == s.len() ==> with_key_prefix(s.take(k), needle) == with_key_prefix(s, needle),
    decreases s.len() - k,
{
    if k == s.len() {
        assert(s.take(k) =~= s);
        assert(with_key_prefix(s, needle).take(with_key_prefix(s, needle).len() as int) =~= with_key_prefix(s, needle));
    } else {
        lemma_prefix_take(s, k + 1, needle);
        assert(s.take(k + 1).drop_last() =~= s.take(k));
        let a = with_key_prefix(s.take(k), needle);
        let b = with_key_prefix(s.take(k + 1), needle);
        let all = with_key_prefix(s, needle);
        assert(b.take(a.len() as int) =~= a);
        assert(all.take(a.len() as int) =~= all.take(b.len() as int).take(a.len() as int));
    }
}


/// `v` without its quote chars.
pub open spec fn without_quotes(v: Seq<char>) -> Seq<char>
    decreases v.len(),
{
    if v.len() == 0 {
        v
    } else {
        let front = without_quotes(v.drop_last());
        if spec_syntax_char(v.last()) == '"' {
            front
        } else {
            front.push(v.last())
        }
    }
}

/// `v` split at every dot (in either width); `a.` gives `a` and an empty part.
pub open spec fn split_dots(v: Seq<char>) -> Seq<Seq<char>>
    decreases v.len(),
{
    if v.len() == 0 {
        seq![Seq::empty()]
    } else {
        let p = split_dots(v.drop_last());
        if spec_syntax_char(v.last()) == '.' {
            p.push(Seq::empty())
        } else {
            p.update(p.len() - 1, p.last().push(v.last()))
        }
    }
}

proof fn lemma_split_dots_len(v: Seq<char>)
    ensures
        split_dots(v).len() >= 1,
    decreases v.len(),
{
    if v.len() > 0 {
        lemma_split_dots_len(v.drop_last());
    }
}

/// The parts of a typed name, folded.
pub open spec fn folded_parts(v: Seq<char>) -> Seq<Seq<char>> {
    split_dots(without_quotes(v)).map_values(|p: Seq<char>| folded(p))
}

/// `parts` written one after another.
pub open spec fn concat_all(parts: Seq<Seq<char>>) -> Seq<char>
    decreases parts.len(),
{
    if parts.len() == 0 {
        Seq::empty()
    } else {
        concat_all(parts.drop_last()) + parts.last()
    }
}

/// Whether a kind prefix (or its absence) lets `wanted` through.
pub open spec fn lets_through(kind: Option<RefKind>, wanted: RefKind) -> bool {
    match kind {
        Some(k) => k == wanted,
        None => true,
    }
}

/// Whether some spelling, folded, contains `needle`.
pub open spec fn spelled_like(words: Seq<Seq<char>>, needle: Seq<char>) -> bool {
    exists|i: int| 0 <= i < words.len() && #[trigger] crate::text::has_substring(folded(words[i]), needle)
}

/// The due keywords offered, in order: the named horizons with three days
/// after tomorrow, and first a count being typed when it is none of them.
pub open spec fn due_base() -> Seq<DueSpec> {
    seq![
        DueSpec::Named(DueName::Overdue),
        DueSpec::Named(DueName::Today),
        DueSpec::Named(DueName::Tomorrow),
        DueSpec::Days(3),
        DueSpec::Named(DueName::Week),
        DueSpec::Named(DueName::Month),
        DueSpec::Named(DueName::Quarter),
        DueSpec::Named(DueName::Year),
        DueSpec::Named(DueName::FiscalYear),
    ]
}

pub open spec fn due_candidates(needle: Seq<char>) -> Seq<DueSpec> {
    match crate::search::due::parse_due(needle) {
        Some(spec) => if due_base().contains(spec) {
            due_base()
        } else {
            seq![spec] + due_base()
        },
        None => due_base(),
    }
}

pub open spec fn due_like(specs: Seq<DueSpec>, needle: Seq<char>) -> Seq<ReferenceView>
    decreases specs.len(),
{
    if specs.len() == 0 {
        Seq::empty()
    } else {
        let front = due_like(specs.drop_last(), needle);
        if spelled_like(crate::search::due::due_all_spellings(specs.last()), needle) {
            front.push(ReferenceView::Due(specs.last()))
        } else {
            front
        }
    }
}

pub open spec fn all_statuses() -> Seq<StatusKey> {
    seq![
        StatusKey::Open,
        StatusKey::Completed,
        StatusKey::NotStarted,
        StatusKey::InProgress,
        StatusKey::Waiting,
        StatusKey::Cancelled,
    ]
}

pub open spec fn status_like(keys: Seq<StatusKey>, needle: Seq<char>) -> Seq<ReferenceView>
    decreases keys.len(),
{
    if keys.len() == 0 {
        Seq::empty()
    } else {
        let front = status_like(keys.drop_last(), needle);
        if spelled_like(crate::search::vocabulary::status_spellings(keys.last()), needle) {
            front.push(ReferenceView::Status(keys.last()))
        } else {
            front
        }
    }
}

pub open spec fn projects_like(ps: Seq<ProjectEntry>, needle: Seq<char>) -> Seq<ReferenceView>
    decreases ps.len(),
{
    if ps.len() == 0 {
        Seq::empty()
    } else {
        let front = projects_like(ps.drop_last(), needle);
        if crate::text::has_substring(folded(ps.last().name@), needle) {
            front.push(ReferenceView::Project(ps.last().id@))
        } else {
            front
        }
    }
}

pub open spec fn lists_like(ls: Seq<ListEntry>, needle: Seq<char>) -> Seq<ReferenceView>
    decreases ls.len(),
{
    if ls.len() == 0 {
        Seq::empty()
    } else {
        let front = lists_like(ls.drop_last(), needle);
        if crate::text::has_substring(folded(ls.last().name@), needle) {
            front.push(ReferenceView::List(ls.last().id@))
        } else {
            front
        }
    }
}

pub open spec fn users_like(us: Seq<UserEntry>, needle: Seq<char>) -> Seq<ReferenceView>
    decreases us.len(),
{
    if us.len() == 0 {
        Seq::empty()
    } else {
        let front = users_like(us.drop_last(), needle);
        if crate::text::has_substring(folded(us.last().display_name@), needle)
            || crate::text::has_substring(folded(us.last().handle@), needle) {
            front.push(ReferenceView::User(us.last().id@))
        } else {
            front
        }
    }
}

/// Whether list `l` lies in a project whose folded name is `project`.
pub open spec fn in_project_named(ps: Seq<ProjectEntry>, l: ListEntry, project: Seq<char>) -> bool {
    match id_from(project_ids(ps), l.project_id@, 0) {
        Some(k) => folded(ps[k].name@) == project,
        None => false,
    }
}

pub open spec fn qualified_like(
    ls: Seq<ListEntry>,
    ps: Seq<ProjectEntry>,
    project: Seq<char>,
    list: Seq<char>,
) -> Seq<ReferenceView>
    decreases ls.len(),
{
    if ls.len() == 0 {
        Seq::empty()
    } else {
        let front = qualified_like(ls.drop_last(), ps, project, list);
        if crate::text::has_substring(folded(ls.last().name@), list) && in_project_named(ps, ls.last(), project) {
            front.push(ReferenceView::List(ls.last().id@))
        } else {
            front
        }
    }
}

/// What the text typed after an `@` could name, before the limit.
pub open spec fn at_found(t: Seq<char>, ps: Seq<ProjectEntry>, ls: Seq<ListEntry>, us: Seq<UserEntry>) -> Seq<ReferenceView> {
    let (kind, value) = match colon_kind(t) {
        Some((k, v)) => (Some(k), v),
        None => (None, t),
    };
    let parts = folded_parts(value);
    if parts.len() == 2 {
        if lets_through(kind, RefKind::List) {
            qualified_like(ls, ps, parts[0], parts[1])
        } else {
            Seq::empty()
        }
    } else {
        let needle = concat_all(parts);
        (if lets_through(kind, RefKind::Due) { due_like(due_candidates(needle), needle) } else { Seq::empty() })
            + (if lets_through(kind, RefKind::Status) { status_like(all_statuses(), needle) } else { Seq::empty() })
            + (if lets_through(kind, RefKind::Project) { projects_like(ps, needle) } else { Seq::empty() })
            + (if lets_through(kind, RefKind::List) { lists_like(ls, needle) } else { Seq::empty() })
            + (if lets_through(kind, RefKind::User) { users_like(us, needle) } else { Seq::empty() })
    }
}

pub open spec fn limited<A>(s: Seq<A>) -> Seq<A> {
    s.take(if s.len() < LIMIT { s.len() as int } else { LIMIT as int })
}

/// Candidates for the text typed after an `@`.
pub open spec fn at_suggested(
    t: Seq<char>,
    ps: Seq<ProjectEntry>,
    ls: Seq<ListEntry>,
    us: Seq<UserEntry>,
    lang: Lang,
) -> Seq<SuggestionView> {
    described_all(ps, ls, us, limited(at_found(t, ps, ls, us)), lang)
}

/// Candidates for a word being typed.
pub open spec fn suggested(
    text: Seq<char>,
    ps: Seq<ProjectEntry>,
    ls: Seq<ListEntry>,
    us: Seq<UserEntry>,
    tags: Seq<String>,
    lang: Lang,
) -> Seq<SuggestionView> {
    if text.len() == 0 {
        Seq::empty()
    } else if spec_syntax_char(text[0]) == '#' {
        tag_suggested(text.skip(1), tags)
    } else if spec_syntax_char(text[0]) == '@' {
        at_suggested(text.skip(1), ps, ls, us, lang)
    } else {
        Seq::empty()
    }
}

/// The folded parts of `chars[from..]`.
fn parts_of(chars: &Vec<char>, from: usize) -> (r: Vec<String>)
    requires
        from <= chars@.len(),
    ensures
        crate::search::lexer::strings_view(r@) == folded_parts(chars@.skip(from as int)),
{
    let ghost v = chars@.skip(from as int);
    let ghost mut raw: Seq<Seq<char>> = Seq::empty();
    let mut done: Vec<String> = Vec::new();
    let mut current = String::new();
    let mut i = from;
    proof {
        assert(v.take(0) =~= Seq::<char>::empty());
        assert(split_dots(without_quotes(v.take(0))) =~= raw.push(current@));
    }
    while i < chars.len()
        invariant
            v == chars@.skip(from as int),
            from <= i <= chars@.len(),
            split_dots(without_quotes(v.take(i - from))) == raw.push(current@),
            crate::search::lexer::strings_view(done@) == raw.map_values(|p: Seq<char>| folded(p)),
        decreases chars@.len() - i,
    {
        let c = chars[i];
        let ghost before = without_quotes(v.take(i - from));
        proof {
            assert(v.take(i + 1 - from).drop_last() =~= v.take(i - from));
            assert(v.take(i + 1 - from).last() == c);
        }
        let s = syntax_char(c);
        if s == '"' {
        } else if s == '.' {
            let part = fold(current.as_str());
            proof {
                assert(before.push(c).drop_last() =~= before);
                assert(crate::search::lexer::strings_view(done@.push(part)) =~= crate::search::lexer::strings_view(done@).push(part@));
                assert(raw.push(current@).map_values(|p: Seq<char>| folded(p)) =~= raw.map_values(|p: Seq<char>| folded(p)).push(folded(current@)));
                assert(crate::search::lexer::strings_view(done@.push(part)) =~= raw.push(current@).map_values(
                    |p: Seq<char>| folded(p),
                ));
                raw = raw.push(current@);
            }
            done.push(part);
            current = String::new();
            proof {
                assert(split_dots(without_quotes(v.take(i + 1 - from))) =~= raw.push(current@));
            }
        } else {
            push_char(&mut current, c);
            proof {
                assert(before.push(c).drop_last() =~= before);
                assert(split_dots(without_quotes(v.take(i + 1 - from))) =~= raw.push(current@));
            }
        }
        i = i + 1;
    }
    let last = fold(current.as_str());
    proof {
        assert(v.take(chars@.len() - from) =~= v);
        assert(crate::search::lexer::strings_view(done@.push(last)) =~= crate::search::lexer::strings_view(done@).push(last@));
                assert(raw.push(current@).map_values(|p: Seq<char>| folded(p)) =~= raw.map_values(|p: Seq<char>| folded(p)).push(folded(current@)));
                assert(crate::search::lexer::strings_view(done@.push(last)) =~= raw.push(current@).map_values(
            |p: Seq<char>| folded(p),
        ));
    }
    done.push(last);
    done
}

fn concat_parts(parts: &Vec<String>) -> (r: String)
    ensures
        r@ == concat_all(crate::search::lexer::strings_view(parts@)),
{
    let ghost all = crate::search::lexer::strings_view(parts@);
    let mut out = String::new();
    let mut i: usize = 0;
    assert(all.take(0) =~= Seq::<Seq<char>>::empty());
    while i < parts.len()
        invariant
            all == crate::search::lexer::strings_view(parts@),
            i <= parts@.len(),
            out@ == concat_all(all.take(i as int)),
        decreases parts@.len() - i,
    {
        proof {
            assert(all.take(i + 1).drop_last() =~= all.take(i as int));
        }
        push_str(&mut out, parts[i].as_str());
        i = i + 1;
    }
    assert(all.take(parts@.len() as int) =~= all);
    out
}

fn spelled_like_strings(words: &Vec<String>, needle: &str) -> (r: bool)
    ensures
        r == spelled_like(crate::search::lexer::strings_view(words@), needle@),
{
    let ghost all = crate::search::lexer::strings_view(words@);
    let mut i: usize = 0;
    while i < words.len()
        invariant
            all == crate::search::lexer::strings_view(words@),
            i <= words@.len(),
            forall|j: int| 0 <= j < i ==> !#[trigger] crate::text::has_substring(folded(all[j]), needle@),
        decreases words@.len() - i,
    {
        if crate::text::contains_text(fold(words[i].as_str()).as_str(), needle) {
            assert(crate::text::has_substring(folded(all[i as int]), needle@));
            return true;
        }
        i = i + 1;
    }
    false
}

fn spelled_like_words(words: &Vec<&'static str>, needle: &str) -> (r: bool)
    ensures
        r == spelled_like(crate::search::vocabulary::words_of(words@), needle@),
{
    let ghost all = crate::search::vocabulary::words_of(words@);
    let mut i: usize = 0;
    while i < words.len()
        invariant
            all == crate::search::vocabulary::words_of(words@),
            i <= words@.len(),
            forall|j: int| 0 <= j < i ==> !#[trigger] crate::text::has_substring(folded(all[j]), needle@),
        decreases words@.len() - i,
    {
        if crate::text::contains_text(fold(words[i]).as_str(), needle) {
            assert(crate::text::has_substring(folded(all[i as int]), needle@));
            return true;
        }
        i = i + 1;
    }
    false
}

fn refs_push(found: &mut Vec<Reference>, r: Reference)
    ensures
        crate::search::resolve::refs_view(final(found)@) == crate::search::resolve::refs_view(old(found)@).push(r@),
{
    found.push(r);
    assert(crate::search::resolve::refs_view(found@) =~= crate::search::resolve::refs_view(old(found)@).push(r@));
}

fn push_due_like(found: &mut Vec<Reference>, needle: &str)
    ensures
        crate::search::resolve::refs_view(final(found)@) == crate::search::resolve::refs_view(old(found)@) + due_like(due_candidates(needle@), needle@),
{
    let names = DueName::all();
    let mut specs: Vec<DueSpec> = Vec::new();
    let mut i: usize = 0;
    while i < names.len()
        invariant
            names@ == seq![
                DueName::Overdue,
                DueName::Today,
                DueName::Tomorrow,
                DueName::Week,
                DueName::Month,
                DueName::Quarter,
                DueName::Year,
                DueName::FiscalYear,
            ],
            i <= names@.len(),
            specs@.len() == i,
            forall|j: int| 0 <= j < i ==> #[trigger] specs@[j] == DueSpec::Named(names@[j]),
        decreases names@.len() - i,
    {
        specs.push(DueSpec::Named(names[i]));
        i = i + 1;
    }
    specs.insert(3, DueSpec::Days(3));
    assert(specs@ =~= due_base());
    match DueSpec::parse(needle) {
        Some(spec) => {
            let mut seen = false;
            let mut k: usize = 0;
            while k < specs.len()
                invariant
                    specs@ == due_base(),
                    k <= specs@.len(),
                    seen == exists|j: int| 0 <= j < k && specs@[j] == spec,
                decreases specs@.len() - k,
            {
                if specs[k] == spec {
                    seen = true;
                }
                k = k + 1;
            }
            if !seen {
                specs.insert(0, spec);
                assert(specs@ =~= seq![spec] + due_base());
            }
        },
        None => {},
    }
    assert(specs@ == due_candidates(needle@));
    let ghost all = specs@;
    let ghost start = crate::search::resolve::refs_view(found@);
    let mut k: usize = 0;
    assert(all.take(0) =~= Seq::<DueSpec>::empty());
    while k < specs.len()
        invariant
            all == specs@,
            k <= specs@.len(),
            crate::search::resolve::refs_view(found@) == start + due_like(all.take(k as int), needle@),
        decreases specs@.len() - k,
    {
        proof {
            assert(all.take(k + 1).drop_last() =~= all.take(k as int));
        }
        let spec = specs[k];
        let words = spec.spellings();
        if spelled_like_strings(&words, needle) {
            refs_push(found, Reference::Due(spec));
        }
        assert(crate::search::resolve::refs_view(found@) =~= start + due_like(all.take(k + 1), needle@));
        k = k + 1;
    }
    assert(all.take(specs@.len() as int) =~= all);
}

fn push_status_like(found: &mut Vec<Reference>, needle: &str)
    ensures
        crate::search::resolve::refs_view(final(found)@) == crate::search::resolve::refs_view(old(found)@) + status_like(all_statuses(), needle@),
{
    let keys = StatusKey::all();
    let ghost all = keys@;
    let ghost start = crate::search::resolve::refs_view(found@);
    let mut k: usize = 0;
    assert(all.take(0) =~= Seq::<StatusKey>::empty());
    while k < keys.len()
        invariant
            all == keys@,
            all == all_statuses(),
            k <= keys@.len(),
            crate::search::resolve::refs_view(found@) == start + status_like(all.take(k as int), needle@),
        decreases keys@.len() - k,
    {
        proof {
            assert(all.take(k + 1).drop_last() =~= all.take(k as int));
        }
        let key = keys[k];
        let words = key.spellings();
        if spelled_like_words(&words, needle) {
            refs_push(found, Reference::Status(key));
        }
        assert(crate::search::resolve::refs_view(found@) =~= start + status_like(all.take(k + 1), needle@));
        k = k + 1;
    }
    assert(all.take(keys@.len() as int) =~= all);
}

fn push_projects_like(found: &mut Vec<Reference>, ps: &[ProjectEntry], needle: &str)
    ensures
        crate::search::resolve::refs_view(final(found)@) == crate::search::resolve::refs_view(old(found)@) + projects_like(ps@, needle@),
{
    let ghost start = crate::search::resolve::refs_view(found@);
    let mut k: usize = 0;
    assert(ps@.take(0) =~= Seq::<ProjectEntry>::empty());
    while k < ps.len()
        invariant
            k <= ps@.len(),
            crate::search::resolve::refs_view(found@) == start + projects_like(ps@.take(k as int), needle@),
        decreases ps@.len() - k,
    {
        proof {
            assert(ps@.take(k + 1).drop_last() =~= ps@.take(k as int));
        }
        if crate::text::contains_text(fold(ps[k].name.as_str()).as_str(), needle) {
            refs_push(found, Reference::Project(ps[k].id.clone()));
        }
        assert(crate::search::resolve::refs_view(found@) =~= start + projects_like(ps@.take(k + 1), needle@));
        k = k + 1;
    }
    assert(ps@.take(ps@.len() as int) =~= ps@);
}

fn push_lists_like(found: &mut Vec<Reference>, ls: &[ListEntry], needle: &str)
    ensures
        crate::search::resolve::refs_view(final(found)@) == crate::search::resolve::refs_view(old(found)@) + lists_like(ls@, needle@),
{
    let ghost start = crate::search::resolve::refs_view(found@);
    let mut k: usize = 0;
    assert(ls@.take(0) =~= Seq::<ListEntry>::empty());
    while k < ls.len()
        invariant
            k <= ls@.len(),
            crate::search::resolve::refs_view(found@) == start + lists_like(ls@.take(k as int), needle@),
        decreases ls@.len() - k,
    {
        proof {
            assert(ls@.take(k + 1).drop_last() =~= ls@.take(k as int));
        }
        if crate::text::contains_text(fold(ls[k].name.as_str()).as_str(), needle) {
            refs_push(found, Reference::List(ls[k].id.clone()));
        }
        assert(crate::search::resolve::refs_view(found@) =~= start + lists_like(ls@.take(k + 1), needle@));
        k = k + 1;
    }
    assert(ls@.take(ls@.len() as int) =~= ls@);
}

fn push_users_like(found: &mut Vec<Reference>, us: &[UserEntry], needle: &str)
    ensures
        crate::search::resolve::refs_view(final(found)@) == crate::search::resolve::refs_view(old(found)@) + users_like(us@, needle@),
{
    let ghost start = crate::search::resolve::refs_view(found@);
    let mut k: usize = 0;
    assert(us@.take(0) =~= Seq::<UserEntry>::empty());
    while k < us.len()
        invariant
            k <= us@.len(),
            crate::search::resolve::refs_view(found@) == start + users_like(us@.take(k as int), needle@),
        decreases us@.len() - k,
    {
        proof {
            assert(us@.take(k + 1).drop_last() =~= us@.take(k as int));
        }
        if crate::text::contains_text(fold(us[k].display_name.as_str()).as_str(), needle)
            || crate::text::contains_text(fold(us[k].handle.as_str()).as_str(), needle) {
            refs_push(found, Reference::User(us[k].id.clone()));
        }
        assert(crate::search::resolve::refs_view(found@) =~= start + users_like(us@.take(k + 1), needle@));
        k = k + 1;
    }
    assert(us@.take(us@.len() as int) =~= us@);
}

fn push_qualified_like(found: &mut Vec<Reference>, index: &NameIndex, project: &str, list: &str)
    ensures
        crate::search::resolve::refs_view(final(found)@) == crate::search::resolve::refs_view(old(found)@) + qualified_like(
            index.list_entries(),
            index.project_entries(),
            project@,
            list@,
        ),
{
    let ls = index.lists();
    let ghost ps = index.project_entries();
    let ghost start = crate::search::resolve::refs_view(found@);
    let mut k: usize = 0;
    assert(ls@.take(0) =~= Seq::<ListEntry>::empty());
    while k < ls.len()
        invariant
            ls@ == index.list_entries(),
            ps == index.project_entries(),
            k <= ls@.len(),
            crate::search::resolve::refs_view(found@) == start + qualified_like(ls@.take(k as int), ps, project@, list@),
        decreases ls@.len() - k,
    {
        proof {
            assert(ls@.take(k + 1).drop_last() =~= ls@.take(k as int));
        }
        let entry = &ls[k];
        let named = crate::text::contains_text(fold(entry.name.as_str()).as_str(), list);
        let in_project = match index.project(entry.project_id.as_str()) {
            Some(parent) => crate::text::same_text(fold(parent.name.as_str()).as_str(), project),
            None => false,
        };
        if named && in_project {
            refs_push(found, Reference::List(entry.id.clone()));
        }
        assert(crate::search::resolve::refs_view(found@) =~= start + qualified_like(ls@.take(k + 1), ps, project@, list@));
        k = k + 1;
    }
    assert(ls@.take(ls@.len() as int) =~= ls@);
}

fn lets_through_exec(kind: Option<RefKind>, wanted: RefKind) -> (r: bool)
    ensures
        r == lets_through(kind, wanted),
{
    match kind {
        Some(k) => k == wanted,
        None => true,
    }
}

/// Candidates for the text typed after an `@`.
fn at_suggestions(typed: &Vec<char>, index: &NameIndex, lang: Lang) -> (r: Vec<Suggestion>)
    ensures
        suggestions_view(r@) == at_suggested(
            typed@,
            index.project_entries(),
            index.list_entries(),
            index.user_entries(),
            lang,
        ),
{
    let (kind, from) = match split_kind(typed, 0) {
        Some((kind, at)) => (Some(kind), at),
        None => (None, 0),
    };
    proof {
        assert(typed@.skip(0) =~= typed@);
    }
    let parts = parts_of(typed, from);
    let mut found: Vec<Reference> = Vec::new();
    assert(crate::search::resolve::refs_view(found@) =~= Seq::<ReferenceView>::empty());
    if parts.len() == 2 {
        if lets_through_exec(kind, RefKind::List) {
            push_qualified_like(&mut found, index, parts[0].as_str(), parts[1].as_str());
        }
    } else {
        let needle = concat_parts(&parts);
        if lets_through_exec(kind, RefKind::Due) {
            push_due_like(&mut found, needle.as_str());
        }
        let ghost after_due = crate::search::resolve::refs_view(found@);
        if lets_through_exec(kind, RefKind::Status) {
            push_status_like(&mut found, needle.as_str());
        }
        let ghost after_status = crate::search::resolve::refs_view(found@);
        if lets_through_exec(kind, RefKind::Project) {
            push_projects_like(&mut found, index.projects(), needle.as_str());
        }
        let ghost after_projects = crate::search::resolve::refs_view(found@);
        if lets_through_exec(kind, RefKind::List) {
            push_lists_like(&mut found, index.lists(), needle.as_str());
        }
        let ghost after_lists = crate::search::resolve::refs_view(found@);
        if lets_through_exec(kind, RefKind::User) {
            push_users_like(&mut found, index.users(), needle.as_str());
        }
    }
    let ghost all = crate::search::resolve::refs_view(found@);
    assert(all =~= at_found(typed@, index.project_entries(), index.list_entries(), index.user_entries()));
    let mut first: Vec<Reference> = Vec::new();
    let mut k: usize = 0;
    while k < found.len() && k < LIMIT
        invariant
            all == crate::search::resolve::refs_view(found@),
            k <= found@.len(),
            k <= LIMIT,
            crate::search::resolve::refs_view(first@) == all.take(k as int),
        decreases found@.len() - k,
    {
        refs_push(&mut first, found[k].clone());
        assert(all.take(k + 1) =~= all.take(k as int).push(found@[k as int]@));
        k = k + 1;
    }
    assert(all.take(k as int) =~= limited(all));
    let mut out: Vec<Suggestion> = Vec::new();
    assert(suggestions_view(out@) =~= Seq::<SuggestionView>::empty());
    describe_all(&mut out, first.as_slice(), index, lang);
    assert(suggestions_view(out@) =~= at_suggested(
        typed@,
        index.project_entries(),
        index.list_entries(),
        index.user_entries(),
        lang,
    ));
    out
}

/// Candidates for the word being typed.
pub fn suggestions(token: &ActiveToken, index: &NameIndex, tags: &[String], lang: Lang) -> (r: Vec<Suggestion>)
    ensures
        suggestions_view(r@) == suggested(
            token.text@,
            index.project_entries(),
            index.list_entries(),
            index.user_entries(),
            tags@,
            lang,
        ),
{
    let chars = chars_of(token.text.as_str());
    let n = chars.len();
    if n == 0 {
        let none: Vec<Suggestion> = Vec::new();
        assert(suggestions_view(none@) =~= Seq::<SuggestionView>::empty());
        return none;
    }
    let first = syntax_char(chars[0]);
    let rest = string_of_range(chars.as_slice(), 1, n);
    assert(chars@.subrange(1, n as int) =~= chars@.skip(1));
    if first == '#' {
        tag_suggestions(rest.as_str(), tags)
    } else if first == '@' {
        at_suggestions(&chars_of(rest.as_str()), index, lang)
    } else {
        let none: Vec<Suggestion> = Vec::new();
        assert(suggestions_view(none@) =~= Seq::<SuggestionView>::empty());
        none
    }
}


proof fn lemma_active_among_bounds(t: Seq<char>, base: int, toks: Seq<CharToken>, active: int)
    requires
        crate::search::lexer::tokens_in_bounds(toks, 0, t.len() as int),
    ensures
        active_among(t, base, toks, active) matches Some(a) ==> {
            &&& base <= a.start <= a.end <= base + crate::text::byte_len(t)
            &&& crate::search::document::on_boundary(t, a.start - base)
            &&& crate::search::document::on_boundary(t, a.end - base)
        },
    decreases toks.len(),
{
    if toks.len() > 0 {
        if is_active(t, base, toks[0], active) {
            let j1 = toks[0].start as int;
            let j2 = toks[0].end as int;
            assert(0 <= j1 <= j2 <= t.len());
            crate::text::lemma_byte_len_take(t, j1, j2);
            crate::text::lemma_byte_len_take(t, j2, t.len() as int);
            assert(t.take(t.len() as int) =~= t);
            assert(crate::text::byte_len(t.take(j1)) == crate::text::byte_len(t.take(j1)));
            assert(crate::text::byte_len(t.take(j2)) == crate::text::byte_len(t.take(j2)));
        } else {
            assert forall|k: int| 0 <= k < toks.drop_first().len() implies 0 <= #[trigger] toks.drop_first()[k].start < toks.drop_first()[k].end <= t.len() by {
                assert(toks.drop_first()[k] == toks[k + 1]);
            }
            lemma_active_among_bounds(t, base, toks.drop_first(), active);
        }
    }
}

proof fn lemma_prefix_bytes_monotone(segs: Seq<SegmentView>, i: int, j: int)
    requires
        0 <= i <= j <= segs.len(),
    ensures
        crate::text::byte_len(crate::search::document::doc_text(segs.take(i)))
            <= crate::text::byte_len(crate::search::document::doc_text(segs.take(j))),
{
    crate::search::document::lemma_prefix_bytes(segs.take(j), i);
    assert(segs.take(j).take(i) =~= segs.take(i));
}

/// The active word always cuts the document between chars, so replacing it
/// never splits a char.
pub proof fn lemma_active_word_cuts_between_chars(segs: Seq<SegmentView>, i: int, active: int)
    requires
        0 <= i,
        crate::text::byte_len(crate::search::document::doc_text(segs)) <= usize::MAX,
    ensures
        active_from(segs, i, active) matches Some(a) ==> a.start <= a.end
            && crate::search::document::cuts_between_chars(segs, a.start, a.end),
    decreases segs.len() - i,
{
    if i < segs.len() {
        lemma_active_word_cuts_between_chars(segs, i + 1, active);
        if let SegmentView::Text(t) = segs[i] {
            let (s, e) = crate::search::document::seg_span(segs, i);
            crate::search::document::lemma_prefix_bytes(segs, i);
            crate::search::document::lemma_prefix_bytes(segs, i + 1);
            crate::text::lemma_byte_len_take(t, 0, t.len() as int);
            assert(t.take(0) =~= Seq::<char>::empty());
            assert(t.take(t.len() as int) =~= t);
            crate::search::lexer::lemma_tokens_from_bounds(t, 0);
            lemma_active_among_bounds(t, s, crate::search::lexer::char_tokens_of(t), active);
            if let Some(a) = active_among(t, s, crate::search::lexer::char_tokens_of(t), active) {
                assert(e == s + crate::text::byte_len(t));
                assert forall|j: int| 0 <= j < segs.len() && #[trigger] segs[j] is Text implies {
                    let (sj, ej) = crate::search::document::seg_span(segs, j);
                    &&& (sj < a.start < ej ==> crate::search::document::on_boundary(crate::search::document::seg_text(segs[j]), a.start - sj))
                    &&& (sj < a.end < ej ==> crate::search::document::on_boundary(crate::search::document::seg_text(segs[j]), a.end - sj))
                } by {
                    if j < i {
                        lemma_prefix_bytes_monotone(segs, j + 1, i);
                    } else if j > i {
                        lemma_prefix_bytes_monotone(segs, i + 1, j);
                    }
                }
            }
        }
    }
}

} // verus!
