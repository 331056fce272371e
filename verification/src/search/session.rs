//! The search box's state between keystrokes.
//!
//! Plain data with no UI types, so a view model can keep it in its shared
//! state and tests can drive it without a window.

use vstd::prelude::*;
use std::ops::Range;
use crate::search::document::{
    blank, canonical_text, commit_all, doc_text, edit_bounds, edited_segments, ambiguous_from,
    first_ambiguous_from, choosable_from, cuts_between_chars, opt_offset, refreshed_all,
    replaced, restored_segments, seg_span, seg_text, segs_view, tidied, QueryDocument, Segment,
    SegmentView,
};
use crate::search::eval::{node_of, unresolved_in, Prepared};
use crate::search::lexer::strings_view;
use crate::search::parser::{parse, parsed_of};
use crate::search::resolve::{refs_view, rendered, text_option, ListEntry, NameIndex, ProjectEntry, Reference, ReferenceView, UserEntry};
use crate::search::sidebar::{self, edited_segments as sidebar_segments, found_view, highlights_of, Highlight, ItemKey, ItemKeyView, QueryEdit};
use crate::search::suggestion::{self, active_from, active_kind, active_option, described_all, suggested, suggestions_view, ActiveToken, ActiveView, Suggestion, SuggestionTarget, TargetView};
use crate::search::vocabulary::Lang;
use crate::text::{byte_len, push_char, push_str};

verus! {

#[derive(Debug)]
pub struct SearchSession {
    document: QueryDocument,
    /// Where the last edit ended; the word there is still being typed.
    active: Option<usize>,
    /// The ambiguous token whose candidates are shown.
    choosing: Option<usize>,
    /// The word the current suggestions would replace.
    suggesting: Option<ActiveToken>,
}

impl SearchSession {
    /// The query's segments.
    pub closed spec fn doc(self) -> Seq<SegmentView> {
        self.document@
    }

    /// Where the last edit ended, while the word there is still being typed.
    pub closed spec fn caret(self) -> Option<usize> {
        self.active
    }

    /// Where the ambiguous token whose candidates are open starts.
    pub closed spec fn choosing_at(self) -> Option<usize> {
        self.choosing
    }

    /// The word the suggestions shown last would replace.
    pub closed spec fn suggesting_word(self) -> Option<ActiveView> {
        active_option(self.suggesting)
    }
}

impl Default for SearchSession {
    fn default() -> (r: Self)
        ensures
            r.doc().len() == 0,
            r.caret() is None,
            r.choosing_at() is None,
            r.suggesting_word() is None,
    {
        SearchSession { document: QueryDocument::default(), active: None, choosing: None, suggesting: None }
    }
}

impl Clone for SearchSession {
    fn clone(&self) -> (r: Self)
        ensures
            r.doc() == self.doc(),
            r.caret() == self.caret(),
            r.choosing_at() == self.choosing_at(),
            r.suggesting_word() == self.suggesting_word(),
    {
        SearchSession {
            document: self.document.clone(),
            active: self.active,
            choosing: self.choosing,
            suggesting: match &self.suggesting {
                Some(t) => Some(t.clone()),
                None => None,
            },
        }
    }
}

/// Everything the search box and the task list need after a change.
#[derive(Debug)]
pub struct SearchView {
    pub text: String,
    pub prepared: Prepared,
    pub suggestions: Vec<Suggestion>,
    /// Non-empty while the disambiguation list is open.
    pub candidates: Vec<Suggestion>,
    /// `@` words that name nothing.
    pub unresolved: Vec<String>,
    /// `@` words still naming several targets.
    pub ambiguous: Vec<String>,
    /// Whether a stray `)` or `|` was skipped.
    pub syntax_issue: bool,
    pub highlights: Vec<(ItemKey, Highlight)>,
}

impl Default for SearchView {
    fn default() -> (r: Self)
        ensures
            r.text@.len() == 0,
            r.prepared.tree() is None,
            r.prepared.unresolved_words().len() == 0,
            r.suggestions@.len() == 0,
            r.candidates@.len() == 0,
            r.unresolved@.len() == 0,
            r.ambiguous@.len() == 0,
            !r.syntax_issue,
            r.highlights@.len() == 0,
    {
        SearchView {
            text: String::new(),
            prepared: Prepared::default(),
            suggestions: Vec::new(),
            candidates: Vec::new(),
            unresolved: Vec::new(),
            ambiguous: Vec::new(),
            syntax_issue: false,
            highlights: Vec::new(),
        }
    }
}

/// The segments after the text field reports `t`.
pub open spec fn after_edit(segs: Seq<SegmentView>, t: Seq<char>) -> Seq<SegmentView> {
    if doc_text(segs) == t {
        segs
    } else {
        tidied(edited_segments(segs, t))
    }
}

/// Where an edit from the text of `segs` to `t` ended in `t`, in bytes.
pub open spec fn edit_caret(segs: Seq<SegmentView>, t: Seq<char>) -> int {
    byte_len(t.take(t.len() - (doc_text(segs).len() - edit_bounds(doc_text(segs), t).1))) as int
}

/// The segment a picked suggestion puts in place of the word being typed, if
/// there is a suggestion at `position` and its target still exists.
pub open spec fn picked_segment(
    token: ActiveView,
    ps: Seq<ProjectEntry>,
    ls: Seq<ListEntry>,
    us: Seq<UserEntry>,
    tags: Seq<String>,
    lang: Lang,
    position: int,
) -> Option<SegmentView> {
    let list = suggested(token.text, ps, ls, us, tags, lang);
    if position < 0 || position >= list.len() {
        None
    } else {
        match list[position].target {
            TargetView::Ref(r) => match rendered(ps, ls, us, r, lang, active_kind(token.text) is Some) {
                Some(text) => Some(SegmentView::Bound(text, r)),
                None => None,
            },
            TargetView::Tag(name) => Some(SegmentView::Text(seq!['#'] + name)),
        }
    }
}

/// The candidate at `position` of the ambiguous token starting at `start`.
pub open spec fn candidate_at(segs: Seq<SegmentView>, start: int, position: int) -> Option<ReferenceView> {
    match ambiguous_from(segs, start, 0) {
        Some(i) => match segs[i] {
            SegmentView::Ambiguous(_, cs) => if 0 <= position < cs.len() {
                Some(cs[position])
            } else {
                None
            },
            _ => None,
        },
        None => None,
    }
}

/// The candidates of the ambiguous token starting at `start`.
pub open spec fn candidates_at(segs: Seq<SegmentView>, start: int) -> Option<Seq<ReferenceView>> {
    match ambiguous_from(segs, start, 0) {
        Some(i) => match segs[i] {
            SegmentView::Ambiguous(_, cs) => Some(cs),
            _ => None,
        },
        None => None,
    }
}

/// The texts of the ambiguous segments, in order.
pub open spec fn ambiguous_texts(segs: Seq<SegmentView>) -> Seq<Seq<char>>
    decreases segs.len(),
{
    if segs.len() == 0 {
        Seq::empty()
    } else {
        let front = ambiguous_texts(segs.drop_last());
        match segs.last() {
            SegmentView::Ambiguous(t, _) => front.push(t),
            _ => front,
        }
    }
}

/// The texts of the broken segments, in order.
pub open spec fn broken_texts(segs: Seq<SegmentView>) -> Seq<Seq<char>>
    decreases segs.len(),
{
    if segs.len() == 0 {
        Seq::empty()
    } else {
        let front = broken_texts(segs.drop_last());
        match segs.last() {
            SegmentView::Broken(t) => front.push(t),
            _ => front,
        }
    }
}

/// The references lit as strong.
pub open spec fn strong_refs(hs: Seq<(ItemKeyView, Highlight)>) -> Seq<ReferenceView>
    decreases hs.len(),
{
    if hs.len() == 0 {
        Seq::empty()
    } else {
        let front = strong_refs(hs.drop_last());
        match hs.last() {
            (ItemKeyView::Ref(r), Highlight::Strong) => front.push(r),
            _ => front,
        }
    }
}

impl SearchSession {
    pub fn text(&self) -> (r: String)
        ensures
            r@ == doc_text(self.doc()),
    {
        self.document.text()
    }

    /// The language-neutral query kept in the settings file.
    pub fn canonical(&self) -> (r: String)
        ensures
            r@ == canonical_text(self.doc()),
    {
        self.document.canonical()
    }

    pub fn is_empty(&self) -> (r: bool)
        ensures
            r == blank(self.doc()),
    {
        self.document.is_empty()
    }

    /// Replaces the whole query with a stored one.
    pub fn restore(&mut self, canonical: &str, index: &NameIndex, lang: Lang)
        requires
            byte_len(doc_text(restored_segments(canonical@, index.project_entries(), index.list_entries(), index.user_entries(), lang))) <= usize::MAX,
        ensures
            final(self).doc() == tidied(restored_segments(canonical@, index.project_entries(), index.list_entries(), index.user_entries(), lang)),
            final(self).caret() is None,
            final(self).choosing_at() is None,
            final(self).suggesting_word() is None,
    {
        *self = SearchSession {
            document: QueryDocument::from_canonical(canonical, index, lang),
            active: None,
            choosing: None,
            suggesting: None,
        };
    }

    pub fn clear(&mut self)
        ensures
            final(self).doc().len() == 0,
            final(self).caret() is None,
            final(self).choosing_at() is None,
            final(self).suggesting_word() is None,
    {
        *self = Self::default();
    }

    /// Takes in what the text field now says.
    ///
    /// Words the edit moved away from are confirmed; if one of them names
    /// several targets, its candidates open.
    pub fn edit(&mut self, text: &str, index: &NameIndex)
        ensures
            ({
                let caret = edit_caret(old(self).doc(), text@);
                let c = commit_all(
                    after_edit(old(self).doc(), text@),
                    Some(caret as usize),
                    index.project_entries(),
                    index.list_entries(),
                    index.user_entries(),
                );
                &&& final(self).doc() == tidied(c.0)
                &&& final(self).caret() == Some(caret as usize)
                &&& final(self).choosing_at() == match c.1 {
                    Some(s) => Some(s as usize),
                    None => old(self).choosing_at(),
                }
            }),
            doc_text(final(self).doc()) == text@,
            final(self).suggesting_word() == old(self).suggesting_word(),
    {
        let active = self.document.apply_edit(text);
        self.active = Some(active);
        let first = self.document.commit(index, Some(active));
        match first {
            Some(start) => {
                self.choosing = Some(start);
            },
            None => {},
        }
    }

    /// Confirms the word being typed too (Enter).
    pub fn commit(&mut self, index: &NameIndex)
        ensures
            ({
                let c = commit_all(old(self).doc(), None, index.project_entries(), index.list_entries(), index.user_entries());
                &&& final(self).doc() == tidied(c.0)
                &&& final(self).choosing_at() == match c.1 {
                    Some(s) => Some(s as usize),
                    None => old(self).choosing_at(),
                }
            }),
            doc_text(final(self).doc()) == doc_text(old(self).doc()),
            final(self).caret() is None,
            final(self).suggesting_word() is None,
    {
        self.active = None;
        self.suggesting = None;
        let first = self.document.commit(index, None);
        match first {
            Some(start) => {
                self.choosing = Some(start);
            },
            None => {},
        }
    }

    /// Puts the picked suggestion in place of the word being typed.
    ///
    /// The word is the one the suggestions shown last were for, so its bytes
    /// lie on char boundaries of the text they were computed from.
    pub fn choose_suggestion(&mut self, position: usize, index: &NameIndex, tags: &[String], lang: Lang) -> (r: bool)
        requires
            old(self).suggesting_word() matches Some(t) ==> {
                &&& t.start <= t.end
                &&& cuts_between_chars(old(self).doc(), t.start, t.end)
                &&& (picked_segment(t, index.project_entries(), index.list_entries(), index.user_entries(), tags@, lang, position as int) matches Some(seg)
                    ==> byte_len(doc_text(old(self).doc())) + byte_len(seg_text(seg)) <= usize::MAX)
            },
        ensures
            final(self).suggesting_word() is None,
            final(self).choosing_at() == old(self).choosing_at(),
            match old(self).suggesting_word() {
                None => !r && final(self).doc() == old(self).doc() && final(self).caret() == old(self).caret(),
                Some(t) => match picked_segment(t, index.project_entries(), index.list_entries(), index.user_entries(), tags@, lang, position as int) {
                    None => !r && final(self).doc() == old(self).doc() && final(self).caret() == old(self).caret(),
                    Some(seg) => r && final(self).doc() == tidied(replaced(old(self).doc(), t.start, t.end, seg))
                        && final(self).caret() is None,
                },
            },
    {
        let token = match self.suggesting.take() {
            Some(token) => token,
            None => return false,
        };
        let ghost tv = token@;
        let list = suggestion::suggestions(&token, index, tags, lang);
        if position >= list.len() {
            return false;
        }
        assert(suggestions_view(list@)[position as int] == list@[position as int]@);
        let segment = match &list[position].target {
            SuggestionTarget::Ref(reference) => {
                let explicit = token.kind().is_some();
                match index.render(reference, lang, explicit) {
                    Some(text) => Segment::Bound { text, reference: reference.clone() },
                    None => return false,
                }
            },
            SuggestionTarget::Tag(name) => {
                let mut text = String::new();
                push_char(&mut text, '#');
                push_str(&mut text, name.as_str());
                assert(text@ =~= seq!['#'] + name@);
                Segment::Text(text)
            },
        };
        self.document.replace_range(token.span.start..token.span.end, segment);
        self.active = None;
        true
    }

    /// Narrows the open ambiguous token to its `position`-th candidate.
    pub fn choose_candidate(&mut self, position: usize) -> (r: bool)
        ensures
            final(self).choosing_at() is None,
            final(self).caret() == old(self).caret(),
            final(self).suggesting_word() == old(self).suggesting_word(),
            match old(self).choosing_at() {
                None => !r && final(self).doc() == old(self).doc(),
                Some(start) => match candidate_at(old(self).doc(), start as int, position as int) {
                    None => !r && final(self).doc() == old(self).doc(),
                    Some(reference) => r == choosable_from(old(self).doc(), start as int, reference, 0) is Some
                        && match choosable_from(old(self).doc(), start as int, reference, 0) {
                        Some(i) => final(self).doc() == old(self).doc().update(
                            i,
                            SegmentView::Bound(seg_text(old(self).doc()[i]), reference),
                        ),
                        None => final(self).doc() == old(self).doc(),
                    },
                },
            },
    {
        let start = match self.choosing.take() {
            Some(start) => start,
            None => return false,
        };
        let reference = match self.document.ambiguous_at(start) {
            Some(candidates) => if position < candidates.len() {
                candidates[position].clone()
            } else {
                return false;
            },
            None => return false,
        };
        self.document.choose_reference(start, reference)
    }

    pub fn dismiss_candidates(&mut self)
        ensures
            final(self).choosing_at() is None,
            final(self).doc() == old(self).doc(),
            final(self).caret() == old(self).caret(),
            final(self).suggesting_word() == old(self).suggesting_word(),
    {
        self.choosing = None;
    }

    /// Opens the candidates of the first token that is still ambiguous.
    pub fn reopen_candidates(&mut self)
        ensures
            final(self).choosing_at() == match first_ambiguous_from(old(self).doc(), 0) {
                Some(i) => Some(seg_span(old(self).doc(), i).0 as usize),
                None => None,
            },
            final(self).doc() == old(self).doc(),
            final(self).caret() == old(self).caret(),
            final(self).suggesting_word() == old(self).suggesting_word(),
    {
        self.choosing = self.document.first_ambiguous();
    }

    /// Rewrites the query for a sidebar item, after confirming what was typed.
    pub fn apply_item(&mut self, key: &ItemKey, item: Segment, edit: QueryEdit, index: &NameIndex)
        requires
            byte_len(doc_text(sidebar_segments(
                tidied(commit_all(old(self).doc(), None, index.project_entries(), index.list_entries(), index.user_entries()).0),
                key@,
                item@,
                edit,
            ))) <= usize::MAX,
        ensures
            final(self).doc() == tidied(sidebar_segments(
                tidied(commit_all(old(self).doc(), None, index.project_entries(), index.list_entries(), index.user_entries()).0),
                key@,
                item@,
                edit,
            )),
            final(self).choosing_at() is None,
            final(self).caret() is None,
            final(self).suggesting_word() is None,
    {
        self.commit(index);
        self.choosing = None;
        self.document = sidebar::apply(&self.document, key, item, edit);
    }

    /// Follows renames, deletions and, with `relocalize`, a language switch.
    pub fn refresh(&mut self, index: &NameIndex, lang: Lang, relocalize: bool)
        requires
            byte_len(doc_text(refreshed_all(old(self).doc(), index.project_entries(), index.list_entries(), index.user_entries(), lang, relocalize))) <= usize::MAX,
        ensures
            final(self).doc() == tidied(refreshed_all(old(self).doc(), index.project_entries(), index.list_entries(), index.user_entries(), lang, relocalize)),
            final(self).caret() == old(self).caret(),
            final(self).choosing_at() == old(self).choosing_at(),
            final(self).suggesting_word() is None,
    {
        self.document.refresh(index, lang, relocalize);
        self.suggesting = None;
    }

    /// The query with its names looked up, for filtering the task list.
    pub fn prepared(&self, index: &NameIndex) -> (r: Prepared)
        ensures
            r.tree() == match parsed_of(self.doc()).expr {
                Some(e) => Some(node_of(e, index.project_entries(), index.list_entries(), index.user_entries())),
                None => None,
            },
            r.unresolved_words() == match parsed_of(self.doc()).expr {
                Some(e) => unresolved_in(e, index.project_entries(), index.list_entries(), index.user_entries(), self.caret()),
                None => Seq::empty(),
            },
    {
        Prepared::new(&parse(&self.document), index, self.active)
    }

    /// How the query uses each sidebar item.
    pub fn highlights(&self) -> (r: Vec<(ItemKey, Highlight)>)
        ensures
            found_view(r@) == highlights_of(parsed_of(self.doc()).expr),
    {
        sidebar::highlights(&parse(&self.document))
    }

    /// The references the query narrows by with AND, e.g. its one list.
    pub fn strong_references(&self) -> (r: Vec<Reference>)
        ensures
            refs_view(r@) == strong_refs(highlights_of(parsed_of(self.doc()).expr)),
    {
        let found = self.highlights();
        let ghost all = found_view(found@);
        let mut out: Vec<Reference> = Vec::new();
        let mut i: usize = 0;
        assert(all.take(0) =~= Seq::<(ItemKeyView, Highlight)>::empty());
        assert(refs_view(out@) =~= Seq::<ReferenceView>::empty());
        while i < found.len()
            invariant
                all == found_view(found@),
                i <= found@.len(),
                refs_view(out@) == strong_refs(all.take(i as int)),
            decreases found@.len() - i,
        {
            proof {
                assert(all.take(i + 1).drop_last() =~= all.take(i as int));
                assert(all.take(i + 1).last() == (found@[i as int].0@, found@[i as int].1));
            }
            let ghost before = refs_view(out@);
            match (&found[i].0, found[i].1) {
                (ItemKey::Ref(reference), Highlight::Strong) => {
                    out.push(reference.clone());
                    assert(refs_view(out@) =~= before.push(reference@));
                },
                _ => {},
            }
            i = i + 1;
        }
        assert(all.take(found@.len() as int) =~= all);
        out
    }
}

/// The texts of the ambiguous (or, with `broken`, the broken) segments, appended to `out`.
fn push_segment_texts(out: &mut Vec<String>, segments: &[Segment], broken: bool)
    ensures
        strings_view(final(out)@) == strings_view(old(out)@) + if broken {
            broken_texts(segs_view(segments@))
        } else {
            ambiguous_texts(segs_view(segments@))
        },
{
    let ghost all = segs_view(segments@);
    let ghost start = strings_view(out@);
    let mut i: usize = 0;
    assert(all.take(0) =~= Seq::<SegmentView>::empty());
    while i < segments.len()
        invariant
            all == segs_view(segments@),
            i <= segments@.len(),
            strings_view(out@) == start + if broken {
                broken_texts(all.take(i as int))
            } else {
                ambiguous_texts(all.take(i as int))
            },
        decreases segments@.len() - i,
    {
        proof {
            assert(all.take(i + 1).drop_last() =~= all.take(i as int));
            assert(all.take(i + 1).last() == segments@[i as int]@);
        }
        let ghost before = strings_view(out@);
        match &segments[i] {
            Segment::Ambiguous { text, .. } => {
                if !broken {
                    out.push(text.clone());
                    assert(strings_view(out@) =~= before.push(text@));
                }
            },
            Segment::Broken(text) => {
                if broken {
                    out.push(text.clone());
                    assert(strings_view(out@) =~= before.push(text@));
                }
            },
            _ => {},
        }
        assert(strings_view(out@) =~= start + if broken {
            broken_texts(all.take(i + 1))
        } else {
            ambiguous_texts(all.take(i + 1))
        });
        i = i + 1;
    }
    assert(all.take(segments@.len() as int) =~= all);
}

impl SearchSession {
    /// Computes what to show. Also remembers which word the suggestions are for.
    pub fn view(&mut self, index: &NameIndex, tags: &[String], lang: Lang) -> (r: SearchView)
        ensures
            ({
                let segs = old(self).doc();
                let ps = index.project_entries();
                let ls = index.list_entries();
                let us = index.user_entries();
                let parsed = parsed_of(segs);
                let word = match old(self).caret() {
                    Some(a) => active_from(segs, 0, a as int),
                    None => None,
                };
                let words = match parsed.expr {
                    Some(e) => unresolved_in(e, ps, ls, us, old(self).caret()),
                    None => Seq::empty(),
                };
                let open = match old(self).choosing_at() {
                    Some(start) => candidates_at(segs, start as int),
                    None => None,
                };
                &&& r.text@ == doc_text(segs)
                &&& r.prepared.tree() == match parsed.expr {
                    Some(e) => Some(node_of(e, ps, ls, us)),
                    None => None,
                }
                &&& r.prepared.unresolved_words() == words
                &&& suggestions_view(r.suggestions@) == match word {
                    Some(t) => suggested(t.text, ps, ls, us, tags@, lang),
                    None => Seq::empty(),
                }
                &&& suggestions_view(r.candidates@) == match open {
                    Some(cs) => described_all(ps, ls, us, cs, lang),
                    None => Seq::empty(),
                }
                &&& strings_view(r.unresolved@) == words + broken_texts(segs)
                &&& strings_view(r.ambiguous@) == ambiguous_texts(segs)
                &&& r.syntax_issue == (parsed.issues.len() > 0)
                &&& found_view(r.highlights@) == highlights_of(parsed.expr)
                &&& final(self).suggesting_word() == word
                &&& final(self).choosing_at() == if open is Some { old(self).choosing_at() } else { None }
            }),
            final(self).doc() == old(self).doc(),
            final(self).caret() == old(self).caret(),
            final(self).suggesting_word() matches Some(t) ==> t.start <= t.end
                && cuts_between_chars(final(self).doc(), t.start, t.end),
    {
        proof {
            use_type_invariant(&self.document);
            if let Some(a) = self.active {
                suggestion::lemma_active_word_cuts_between_chars(self.document@, 0, a as int);
            }
        }
        let parsed = parse(&self.document);
        let prepared = Prepared::new(&parsed, index, self.active);
        self.suggesting = match self.active {
            Some(active) => suggestion::active_token(&self.document, active),
            None => None,
        };
        let suggestions = match &self.suggesting {
            Some(token) => suggestion::suggestions(token, index, tags, lang),
            None => {
                let none: Vec<Suggestion> = Vec::new();
                assert(suggestions_view(none@) =~= Seq::<suggestion::SuggestionView>::empty());
                none
            },
        };
        let open = match self.choosing {
            Some(start) => self.document.ambiguous_at(start),
            None => None,
        };
        let candidates = match open {
            Some(references) => suggestion::candidates(references, index, lang),
            None => {
                self.choosing = None;
                let none: Vec<Suggestion> = Vec::new();
                assert(suggestions_view(none@) =~= Seq::<suggestion::SuggestionView>::empty());
                none
            },
        };
        let mut ambiguous: Vec<String> = Vec::new();
        assert(strings_view(ambiguous@) =~= Seq::<Seq<char>>::empty());
        push_segment_texts(&mut ambiguous, self.document.segments(), false);
        let mut unresolved = prepared.unresolved_names();
        push_segment_texts(&mut unresolved, self.document.segments(), true);
        let highlights = sidebar::highlights(&parsed);
        let syntax_issue = parsed.issues.len() > 0;
        SearchView {
            text: self.document.text(),
            prepared,
            suggestions,
            candidates,
            unresolved,
            ambiguous,
            syntax_issue,
            highlights,
        }
    }
}

} // verus!
