//! The search box's text together with what its `@` tokens were confirmed as.
//!
//! The text field holds plain text only, so the document keeps the text as a
//! list of segments: free text as typed, and confirmed tokens carrying their
//! [`Reference`]. Each edit is diffed against the previous text so that tokens
//! outside the edited range keep their reference.

use vstd::prelude::*;
use std::ops::Range;
use crate::search::normalize::{spec_syntax_char, syntax_char};
use crate::search::lexer::{char_tokens, char_tokens_of, lemma_tokens_from_bounds, lemma_tokens_from_ordered, read_term, read_term_of, tokens_in_bounds, tokens_ordered, byte_offsets, CharToken, RawTerm, RawTermView, TokenKind};
use crate::search::resolve::{is_explicit, ref_kind, refs_view, rendered, resolved, target_exists, ListEntry, NameIndex, ProjectEntry, Reference, ReferenceView, UserEntry};
use crate::search::vocabulary::{Lang, RefKind};
use crate::text::{byte_len, chars_of, is_white_space, is_whitespace, lemma_byte_len_concat, push_str, string_of, trimmed, trim, utf8_len};

verus! {

#[derive(Debug, PartialEq, Eq)]
pub enum Segment {
    /// Text as the user typed it: operators, free text, tags, and `@` words
    /// that are still being typed or that name nothing.
    Text(String),
    /// An `@` token confirmed as one target.
    Bound { text: String, reference: Reference },
    /// An `@` token that names several targets and has not been narrowed yet.
    Ambiguous { text: String, candidates: Vec<Reference> },
    /// A confirmed token whose target was deleted. Kept, so that the condition
    /// does not silently loosen, and never re-bound until it is edited.
    Broken(String),
}

/// The value of a [`Segment`].
pub enum SegmentView {
    Text(Seq<char>),
    Bound(Seq<char>, ReferenceView),
    Ambiguous(Seq<char>, Seq<ReferenceView>),
    Broken(Seq<char>),
}

impl View for Segment {
    type V = SegmentView;

    open spec fn view(&self) -> SegmentView {
        match self {
            Segment::Text(t) => SegmentView::Text(t@),
            Segment::Bound { text, reference } => SegmentView::Bound(text@, reference@),
            Segment::Ambiguous { text, candidates } => SegmentView::Ambiguous(
                text@,
                refs_view(candidates@),
            ),
            Segment::Broken(t) => SegmentView::Broken(t@),
        }
    }
}

/// The text a segment shows.
pub open spec fn seg_text(s: SegmentView) -> Seq<char> {
    match s {
        SegmentView::Text(t) => t,
        SegmentView::Bound(t, _) => t,
        SegmentView::Ambiguous(t, _) => t,
        SegmentView::Broken(t) => t,
    }
}

pub open spec fn segs_view(v: Seq<Segment>) -> Seq<SegmentView> {
    v.map_values(|s: Segment| s@)
}

/// The text of a run of segments.
pub open spec fn doc_text(segs: Seq<SegmentView>) -> Seq<char>
    decreases segs.len(),
{
    if segs.len() == 0 {
        Seq::empty()
    } else {
        doc_text(segs.drop_last()) + seg_text(segs.last())
    }
}

pub proof fn lemma_doc_text_concat(a: Seq<SegmentView>, b: Seq<SegmentView>)
    ensures
        doc_text(a + b) == doc_text(a) + doc_text(b),
    decreases b.len(),
{
    if b.len() == 0 {
        assert(a + b =~= a);
        assert(doc_text(a) + doc_text(b) =~= doc_text(a));
    } else {
        lemma_doc_text_concat(a, b.drop_last());
        assert((a + b).drop_last() =~= a + b.drop_last());
        assert(doc_text(a + b) =~= doc_text(a) + doc_text(b));
    }
}

/// A copy of a list of references.
pub fn copy_references(v: &Vec<Reference>) -> (r: Vec<Reference>)
    ensures
        refs_view(r@) == refs_view(v@),
{
    let mut out: Vec<Reference> = Vec::new();
    let mut i: usize = 0;
    while i < v.len()
        invariant
            i <= v@.len(),
            out@.len() == i,
            forall|k: int| 0 <= k < i ==> (#[trigger] out@[k])@ == v@[k]@,
        decreases v@.len() - i,
    {
        out.push(v[i].clone());
        i = i + 1;
    }
    assert(refs_view(out@) =~= refs_view(v@));
    out
}

impl Clone for Segment {
    fn clone(&self) -> (r: Self)
        ensures
            r@ == self@,
    {
        match self {
            Segment::Text(t) => Segment::Text(t.clone()),
            Segment::Bound { text, reference } => Segment::Bound {
                text: text.clone(),
                reference: reference.clone(),
            },
            Segment::Ambiguous { text, candidates } => Segment::Ambiguous {
                text: text.clone(),
                candidates: copy_references(candidates),
            },
            Segment::Broken(t) => Segment::Broken(t.clone()),
        }
    }
}

impl Segment {
    pub fn text(&self) -> (r: &str)
        ensures
            r@ == seg_text(self@),
    {
        match self {
            Segment::Text(text) => text.as_str(),
            Segment::Broken(text) => text.as_str(),
            Segment::Bound { text, .. } => text.as_str(),
            Segment::Ambiguous { text, .. } => text.as_str(),
        }
    }

    fn is_text(&self) -> (r: bool)
        ensures
            r == (self@ is Text),
    {
        match self {
            Segment::Text(_) => true,
            _ => false,
        }
    }

    /// The segment turned into plain text.
    fn into_text(self) -> (r: Segment)
        ensures
            r@ == SegmentView::Text(seg_text(self@)),
    {
        match self {
            Segment::Text(text) => Segment::Text(text),
            Segment::Broken(text) => Segment::Text(text),
            Segment::Bound { text, .. } => Segment::Text(text),
            Segment::Ambiguous { text, .. } => Segment::Text(text),
        }
    }
}

/// The segments whose text is not empty.
pub open spec fn nonempty_segments(segs: Seq<SegmentView>) -> Seq<SegmentView>
    decreases segs.len(),
{
    if segs.len() == 0 {
        segs
    } else {
        let rest = nonempty_segments(segs.drop_last());
        if seg_text(segs.last()).len() > 0 {
            rest.push(segs.last())
        } else {
            rest
        }
    }
}

/// A char after which a token can start: whitespace, `(`, `|` or `-`.
pub open spec fn opens_token(c: char) -> bool {
    is_white_space(c) || spec_syntax_char(c) == '(' || spec_syntax_char(c) == '|'
        || spec_syntax_char(c) == '-'
}

/// A char before which a token can end: whitespace, `)` or `|`.
pub open spec fn closes_token(c: char) -> bool {
    is_white_space(c) || spec_syntax_char(c) == ')' || spec_syntax_char(c) == '|'
}

/// Whether the token at `i` stands apart from its neighbours' text.
pub open spec fn stands_apart(segs: Seq<SegmentView>, i: int) -> bool {
    &&& (i == 0 || opens_token(seg_text(segs[i - 1]).last()))
    &&& (i + 1 >= segs.len() || closes_token(seg_text(segs[i + 1])[0]))
}

/// The segments with every token glued to a neighbouring word turned into text.
pub open spec fn opened(segs: Seq<SegmentView>) -> Seq<SegmentView> {
    Seq::new(
        segs.len(),
        |i: int|
            if segs[i] is Text || stands_apart(segs, i) {
                segs[i]
            } else {
                SegmentView::Text(seg_text(segs[i]))
            },
    )
}

/// The segments with neighbouring texts merged.
pub open spec fn merged(segs: Seq<SegmentView>) -> Seq<SegmentView>
    decreases segs.len(),
{
    if segs.len() == 0 {
        segs
    } else {
        let rest = merged(segs.drop_last());
        let s = segs.last();
        if s is Text && rest.len() > 0 && rest.last() is Text {
            rest.drop_last().push(SegmentView::Text(seg_text(rest.last()) + seg_text(s)))
        } else {
            rest.push(s)
        }
    }
}

/// Empty segments dropped, glued tokens unbound, neighbouring texts merged.
pub open spec fn tidied(segs: Seq<SegmentView>) -> Seq<SegmentView> {
    merged(opened(nonempty_segments(segs)))
}

proof fn lemma_nonempty_text(s: Seq<SegmentView>)
    ensures
        doc_text(nonempty_segments(s)) == doc_text(s),
        forall|i: int|
            0 <= i < nonempty_segments(s).len() ==> seg_text(#[trigger] nonempty_segments(s)[i]).len()
                > 0,
    decreases s.len(),
{
    if s.len() > 0 {
        lemma_nonempty_text(s.drop_last());
        let rest = nonempty_segments(s.drop_last());
        if seg_text(s.last()).len() == 0 {
            assert(doc_text(s) =~= doc_text(s.drop_last()));
        } else {
            assert(rest.push(s.last()).drop_last() =~= rest);
        }
    }
}

proof fn lemma_opened_text(s: Seq<SegmentView>)
    ensures
        doc_text(opened(s)) == doc_text(s),
    decreases s.len(),
{
    if s.len() > 0 {
        let t = s.drop_last();
        lemma_opened_text(t);
        // The last segment's neighbours inside `t` are those it has inside `s`.
        let a = opened(s).drop_last();
        assert forall|i: int| 0 <= i < a.len() implies seg_text(#[trigger] a[i]) == seg_text(opened(t)[i]) by {
        }
        lemma_same_texts(a, opened(t));
    }
}

proof fn lemma_same_texts(a: Seq<SegmentView>, b: Seq<SegmentView>)
    requires
        a.len() == b.len(),
        forall|i: int| 0 <= i < a.len() ==> seg_text(#[trigger] a[i]) == seg_text(b[i]),
    ensures
        doc_text(a) == doc_text(b),
    decreases a.len(),
{
    if a.len() > 0 {
        lemma_same_texts(a.drop_last(), b.drop_last());
        assert(seg_text(a.last()) == seg_text(b.last()));
    }
}

proof fn lemma_merged_text(s: Seq<SegmentView>)
    ensures
        doc_text(merged(s)) == doc_text(s),
    decreases s.len(),
{
    if s.len() > 0 {
        lemma_merged_text(s.drop_last());
        let rest = merged(s.drop_last());
        if s.last() is Text && rest.len() > 0 && rest.last() is Text {
            let joined = SegmentView::Text(seg_text(rest.last()) + seg_text(s.last()));
            assert(rest.drop_last().push(joined).drop_last() =~= rest.drop_last());
            assert(doc_text(rest) == doc_text(rest.drop_last()) + seg_text(rest.last()));
            assert(doc_text(merged(s)) =~= doc_text(rest.drop_last()) + (seg_text(rest.last())
                + seg_text(s.last())));
        } else {
            assert(rest.push(s.last()).drop_last() =~= rest);
        }
    }
}

/// Tidying keeps the text.
pub proof fn lemma_tidied_text(s: Seq<SegmentView>)
    ensures
        doc_text(tidied(s)) == doc_text(s),
{
    lemma_nonempty_text(s);
    lemma_opened_text(nonempty_segments(s));
    lemma_merged_text(opened(nonempty_segments(s)));
}

/// Removing the first segment drops the first view.
proof fn lemma_views_after_remove(prev: Seq<Segment>, rest: Seq<Segment>, all: Seq<SegmentView>, i: int)
    requires
        prev.len() > 0,
        rest == prev.remove(0),
        segs_view(prev) == all.skip(i),
        0 <= i < all.len(),
    ensures
        segs_view(rest) == all.skip(i + 1),
        prev[0]@ == all[i],
{
    assert(segs_view(prev)[0] == prev[0]@);
    assert(segs_view(prev).len() == prev.len());
    assert(segs_view(rest).len() == rest.len());
    assert(segs_view(rest) =~= all.skip(i + 1)) by {
        assert forall|k: int| 0 <= k < rest.len() implies #[trigger] segs_view(rest)[k] == all.skip(i + 1)[k] by {
            assert(rest[k] == prev[k + 1]);
            assert(segs_view(rest)[k] == rest[k]@);
            assert(segs_view(prev)[k + 1] == prev[k + 1]@);
            assert(all.skip(i)[k + 1] == all[i + k + 1]);
            assert(all.skip(i + 1)[k] == all[i + k + 1]);
        }
    }
}

/// The segments whose text is not empty, in order.
fn drop_empty(segs: Vec<Segment>) -> (r: Vec<Segment>)
    ensures
        segs_view(r@) == nonempty_segments(segs_view(segs@)),
{
    let ghost all = segs_view(segs@);
    let mut rest = segs;
    let mut out: Vec<Segment> = Vec::new();
    let n = rest.len();
    let mut i: usize = 0;
    assert(segs_view(rest@) =~= all.skip(0));
    while rest.len() > 0
        invariant
            n == all.len(),
            i + rest@.len() == n,
            segs_view(rest@) == all.skip(i as int),
            segs_view(out@) == nonempty_segments(all.take(i as int)),
        decreases rest@.len(),
    {
        let ghost prev = rest@;
        let s = rest.remove(0);
        proof {
            assert(all.take(i + 1).drop_last() =~= all.take(i as int));
            lemma_views_after_remove(prev, rest@, all, i as int);
        }
        let ghost before = out@;
        if s.text().unicode_len() > 0 {
            out.push(s);
            assert(segs_view(out@) =~= segs_view(before).push(all[i as int]));
        }
        i = i + 1;
    }
    assert(all.take(n as int) =~= all);
    out
}

fn opens(c: char) -> (r: bool)
    ensures
        r == opens_token(c),
{
    let s = syntax_char(c);
    is_whitespace(c) || s == '(' || s == '|' || s == '-'
}

fn closes(c: char) -> (r: bool)
    ensures
        r == closes_token(c),
{
    let s = syntax_char(c);
    is_whitespace(c) || s == ')' || s == '|'
}

/// Turns every token glued to a neighbouring word into text.
fn unbind_glued(segs: Vec<Segment>) -> (r: Vec<Segment>)
    requires
        forall|i: int| 0 <= i < segs@.len() ==> seg_text(#[trigger] segs@[i]@).len() > 0,
    ensures
        segs_view(r@) == opened(segs_view(segs@)),
{
    let ghost all = segs_view(segs@);
    let n = segs.len();
    // The first and last char of every segment, read before any is moved.
    let mut firsts: Vec<char> = Vec::new();
    let mut lasts: Vec<char> = Vec::new();
    let mut k: usize = 0;
    while k < n
        invariant
            n == segs@.len(),
            all == segs_view(segs@),
            forall|i: int| 0 <= i < segs@.len() ==> seg_text(#[trigger] segs@[i]@).len() > 0,
            k <= n,
            firsts@.len() == k,
            lasts@.len() == k,
            forall|i: int| 0 <= i < k ==> #[trigger] firsts@[i] == seg_text(all[i])[0],
            forall|i: int| 0 <= i < k ==> #[trigger] lasts@[i] == seg_text(all[i]).last(),
        decreases n - k,
    {
        let chars = chars_of(segs[k].text());
        assert(seg_text(segs@[k as int]@).len() > 0);
        firsts.push(chars[0]);
        lasts.push(chars[chars.len() - 1]);
        k = k + 1;
    }
    let mut rest = segs;
    let mut out: Vec<Segment> = Vec::new();
    let mut i: usize = 0;
    assert(segs_view(rest@) =~= all.skip(0));
    while rest.len() > 0
        invariant
            n == all.len(),
            i + rest@.len() == n,
            firsts@.len() == n,
            lasts@.len() == n,
            forall|j: int| 0 <= j < n ==> #[trigger] firsts@[j] == seg_text(all[j])[0],
            forall|j: int| 0 <= j < n ==> #[trigger] lasts@[j] == seg_text(all[j]).last(),
            segs_view(rest@) == all.skip(i as int),
            out@.len() == i,
            forall|j: int| 0 <= j < i ==> (#[trigger] out@[j])@ == opened(all)[j],
        decreases rest@.len(),
    {
        let ghost prev = rest@;
        let s = rest.remove(0);
        proof {
            lemma_views_after_remove(prev, rest@, all, i as int);
        }
        let apart = (i == 0 || opens(lasts[i - 1])) && (i + 1 >= n || closes(firsts[i + 1]));
        let keep = s.is_text() || apart;
        if keep {
            out.push(s);
        } else {
            out.push(s.into_text());
        }
        i = i + 1;
    }
    assert(segs_view(out@) =~= opened(all));
    out
}

/// Merges neighbouring text segments.
fn merge_texts(segs: Vec<Segment>) -> (r: Vec<Segment>)
    ensures
        segs_view(r@) == merged(segs_view(segs@)),
{
    let ghost all = segs_view(segs@);
    let mut rest = segs;
    let mut out: Vec<Segment> = Vec::new();
    let n = rest.len();
    let mut i: usize = 0;
    assert(segs_view(rest@) =~= all.skip(0));
    while rest.len() > 0
        invariant
            n == all.len(),
            i + rest@.len() == n,
            segs_view(rest@) == all.skip(i as int),
            segs_view(out@) == merged(all.take(i as int)),
        decreases rest@.len(),
    {
        let ghost prev = rest@;
        let s = rest.remove(0);
        proof {
            assert(all.take(i + 1).drop_last() =~= all.take(i as int));
            lemma_views_after_remove(prev, rest@, all, i as int);
        }
        let ghost before = out@;
        let glue = s.is_text() && out.len() > 0 && out[out.len() - 1].is_text();
        if glue {
            let last = out.pop().unwrap();
            let mut text = String::new();
            push_str(&mut text, last.text());
            push_str(&mut text, s.text());
            out.push(Segment::Text(text));
            assert(segs_view(before).drop_last() =~= segs_view(out@).drop_last());
            assert(segs_view(out@) =~= segs_view(before).drop_last().push(
                SegmentView::Text(seg_text(segs_view(before).last()) + seg_text(s@)),
            ));
        } else {
            out.push(s);
            assert(segs_view(out@) =~= segs_view(before).push(all[i as int]));
        }
        i = i + 1;
    }
    assert(all.take(n as int) =~= all);
    out
}

/// Drops empty segments, unbinds tokens glued to a word, merges neighbouring text.
fn tidy(segs: Vec<Segment>) -> (r: Vec<Segment>)
    ensures
        segs_view(r@) == tidied(segs_view(segs@)),
        doc_text(segs_view(r@)) == doc_text(segs_view(segs@)),
{
    let a = drop_empty(segs);
    proof {
        lemma_nonempty_text(segs_view(segs@));
        assert forall|i: int| 0 <= i < a@.len() implies seg_text(#[trigger] a@[i]@).len() > 0 by {
            assert(segs_view(a@)[i] == a@[i]@);
        }
    }
    let b = unbind_glued(a);
    let c = merge_texts(b);
    proof {
        lemma_tidied_text(segs_view(segs@));
    }
    c
}

/// The byte range of segment `i` in the text of `segs`.
pub open spec fn seg_span(segs: Seq<SegmentView>, i: int) -> (int, int) {
    (byte_len(doc_text(segs.take(i))) as int, byte_len(doc_text(segs.take(i + 1))) as int)
}

/// Whether every segment's text is blank.
pub open spec fn blank(segs: Seq<SegmentView>) -> bool {
    forall|i: int| 0 <= i < segs.len() ==> trimmed(seg_text(#[trigger] segs[i])).len() == 0
}

/// A prefix of the segments takes no more bytes than all of them.
pub proof fn lemma_prefix_bytes(segs: Seq<SegmentView>, i: int)
    requires
        0 <= i <= segs.len(),
    ensures
        byte_len(doc_text(segs.take(i))) <= byte_len(doc_text(segs)),
        i < segs.len() ==> byte_len(doc_text(segs.take(i + 1))) == byte_len(doc_text(segs.take(i)))
            + byte_len(seg_text(segs[i])),
{
    lemma_doc_text_concat(segs.take(i), segs.skip(i));
    assert(segs.take(i) + segs.skip(i) =~= segs);
    lemma_byte_len_concat(doc_text(segs.take(i)), doc_text(segs.skip(i)));
    if i < segs.len() {
        assert(segs.take(i + 1).drop_last() =~= segs.take(i));
        lemma_byte_len_concat(doc_text(segs.take(i)), seg_text(segs[i]));
    }
}

#[derive(Debug, PartialEq, Eq)]
pub struct QueryDocument {
    segments: Vec<Segment>,
}

impl View for QueryDocument {
    type V = Seq<SegmentView>;

    closed spec fn view(&self) -> Seq<SegmentView> {
        segs_view(self.segments@)
    }
}

impl QueryDocument {
    /// The text's byte offsets fit a `usize`.
    #[verifier::type_invariant]
    pub(crate) open spec fn offsets_fit(self) -> bool {
        byte_len(doc_text(self@)) <= usize::MAX
    }

    pub fn from_text(text: &str) -> (r: Self)
        ensures
            r@ == tidied(seq![SegmentView::Text(text@)]),
    {
        let n = utf8_len(text);
        let segments = vec![Segment::Text(String::from_str(text))];
        proof {
            assert(segs_view(segments@) =~= seq![SegmentView::Text(text@)]);
            assert(doc_text(seq![SegmentView::Text(text@)]) =~= text@) by {
                assert(seq![SegmentView::Text(text@)].drop_last() =~= Seq::<SegmentView>::empty());
                assert(doc_text(Seq::<SegmentView>::empty()) =~= Seq::<char>::empty());
                assert(Seq::<char>::empty() + text@ =~= text@);
            }
        }
        Self::from_segments(segments)
    }

    pub fn from_segments(segments: Vec<Segment>) -> (r: Self)
        requires
            byte_len(doc_text(segs_view(segments@))) <= usize::MAX,
        ensures
            r@ == tidied(segs_view(segments@)),
    {
        let segments = tidy(segments);
        QueryDocument { segments }
    }

    pub fn segments(&self) -> (r: &[Segment])
        ensures
            segs_view(r@) == self@,
    {
        self.segments.as_slice()
    }

    pub fn text(&self) -> (r: String)
        ensures
            r@ == doc_text(self@),
    {
        let ghost all = self@;
        let mut out = String::new();
        let mut i: usize = 0;
        while i < self.segments.len()
            invariant
                all == segs_view(self.segments@),
                i <= self.segments@.len(),
                out@ == doc_text(all.take(i as int)),
            decreases self.segments@.len() - i,
        {
            proof {
                assert(all.take(i + 1).drop_last() =~= all.take(i as int));
                assert(all[i as int] == self.segments@[i as int]@);
            }
            push_str(&mut out, self.segments[i].text());
            i = i + 1;
        }
        assert(all.take(self.segments@.len() as int) =~= all);
        out
    }

    pub fn is_empty(&self) -> (r: bool)
        ensures
            r == blank(self@),
            r == (trimmed(doc_text(self@)).len() == 0),
    {
        proof {
            law_blank_means_the_text_trims_to_nothing(self@);
        }
        let ghost all = self@;
        let mut i: usize = 0;
        while i < self.segments.len()
            invariant
                all == segs_view(self.segments@),
                i <= self.segments@.len(),
                forall|k: int| 0 <= k < i ==> trimmed(seg_text(#[trigger] all[k])).len() == 0,
            decreases self.segments@.len() - i,
        {
            assert(all[i as int] == self.segments@[i as int]@);
            let t = trim(self.segments[i].text());
            if t.as_str().unicode_len() > 0 {
                assert(!blank(all));
                proof {
                    law_blank_means_the_text_trims_to_nothing(all);
                }
                return false;
            }
            i = i + 1;
        }
        true
    }

    /// Byte ranges of every segment in [`Self::text`].
    pub fn spans(&self) -> (r: Vec<Range<usize>>)
        ensures
            r@.len() == self@.len(),
            forall|i: int|
                0 <= i < r@.len() ==> (#[trigger] r@[i]).start == seg_span(self@, i).0 && r@[i].end
                    == seg_span(self@, i).1,
    {
        proof {
            use_type_invariant(self);
        }
        let ghost all = self@;
        let mut out: Vec<Range<usize>> = Vec::new();
        let mut offset: usize = 0;
        let mut i: usize = 0;
        assert(all.take(0) =~= Seq::<SegmentView>::empty());
        while i < self.segments.len()
            invariant
                all == segs_view(self.segments@),
                byte_len(doc_text(all)) <= usize::MAX,
                i <= self.segments@.len(),
                offset == byte_len(doc_text(all.take(i as int))),
                out@.len() == i,
                forall|k: int|
                    0 <= k < i ==> (#[trigger] out@[k]).start == seg_span(all, k).0 && out@[k].end
                        == seg_span(all, k).1,
            decreases self.segments@.len() - i,
        {
            proof {
                lemma_prefix_bytes(all, i + 1);
                lemma_prefix_bytes(all, i as int);
                assert(all[i as int] == self.segments@[i as int]@);
            }
            let width = utf8_len(self.segments[i].text());
            let start = offset;
            offset = offset + width;
            out.push(start..offset);
            i = i + 1;
        }
        out
    }
}

/// The number of leading chars `a` and `b` share.
pub open spec fn common_prefix_len(a: Seq<char>, b: Seq<char>) -> nat
    decreases a.len(),
{
    if a.len() == 0 || b.len() == 0 || a[0] != b[0] {
        0
    } else {
        1 + common_prefix_len(a.drop_first(), b.drop_first())
    }
}

/// The number of trailing chars `a` and `b` share.
pub open spec fn common_suffix_len(a: Seq<char>, b: Seq<char>) -> nat
    decreases a.len(),
{
    if a.len() == 0 || b.len() == 0 || a.last() != b.last() {
        0
    } else {
        1 + common_suffix_len(a.drop_last(), b.drop_last())
    }
}

proof fn lemma_common_prefix(a: Seq<char>, b: Seq<char>)
    ensures
        common_prefix_len(a, b) <= a.len(),
        common_prefix_len(a, b) <= b.len(),
        a.take(common_prefix_len(a, b) as int) == b.take(common_prefix_len(a, b) as int),
        common_prefix_len(a, b) < a.len() && common_prefix_len(a, b) < b.len() ==> a[common_prefix_len(a, b) as int] != b[common_prefix_len(a, b) as int],
    decreases a.len(),
{
    if !(a.len() == 0 || b.len() == 0 || a[0] != b[0]) {
        lemma_common_prefix(a.drop_first(), b.drop_first());
        let k = common_prefix_len(a, b) as int;
        assert(a.take(k) =~= seq![a[0]] + a.drop_first().take(k - 1));
        assert(b.take(k) =~= seq![b[0]] + b.drop_first().take(k - 1));
    } else {
        assert(a.take(0) =~= b.take(0));
    }
}

proof fn lemma_common_suffix(a: Seq<char>, b: Seq<char>)
    ensures
        common_suffix_len(a, b) <= a.len(),
        common_suffix_len(a, b) <= b.len(),
        a.skip(a.len() - common_suffix_len(a, b)) == b.skip(b.len() - common_suffix_len(a, b)),
    decreases a.len(),
{
    if !(a.len() == 0 || b.len() == 0 || a.last() != b.last()) {
        lemma_common_suffix(a.drop_last(), b.drop_last());
        let k = common_suffix_len(a, b) as int;
        assert(a.skip(a.len() - k) =~= a.drop_last().skip(a.len() - k) + seq![a.last()]);
        assert(b.skip(b.len() - k) =~= b.drop_last().skip(b.len() - k) + seq![b.last()]);
    } else {
        assert(a.skip(a.len() as int) =~= b.skip(b.len() as int));
    }
}

/// The segments around an edit of the chars `cp..old_end`: those wholly
/// before it, the text of the touched ones that came before it, and those
/// after it, with the touched text that came after it as a text segment.
pub struct EditSplit {
    pub before: Seq<SegmentView>,
    pub middle: Seq<char>,
    pub after: Seq<SegmentView>,
}

pub open spec fn split_for_edit(segs: Seq<SegmentView>, cp: int, old_end: int) -> EditSplit
    decreases segs.len(),
{
    if segs.len() == 0 {
        EditSplit { before: Seq::empty(), middle: Seq::empty(), after: Seq::empty() }
    } else {
        let st = split_for_edit(segs.drop_last(), cp, old_end);
        let s = segs.last();
        let t = seg_text(s);
        let a = doc_text(segs.drop_last()).len() as int;
        let b = a + t.len();
        if b <= cp {
            EditSplit { before: st.before.push(s), ..st }
        } else if a >= old_end {
            EditSplit { after: st.after.push(s), ..st }
        } else {
            EditSplit {
                middle: st.middle + if a < cp {
                    t.take(cp - a)
                } else {
                    Seq::empty()
                },
                after: if b > old_end {
                    st.after.push(SegmentView::Text(t.skip(old_end - a)))
                } else {
                    st.after
                },
                ..st
            }
        }
    }
}

/// Where an edit from `old` to `new` starts, and where it ends in `old`, in chars.
pub open spec fn edit_bounds(old: Seq<char>, new: Seq<char>) -> (int, int) {
    let cp = common_prefix_len(old, new) as int;
    let cs = common_suffix_len(old.skip(cp), new.skip(cp)) as int;
    (cp, old.len() - cs)
}

/// The segments after the text changed from their text to `new`, before tidying.
pub open spec fn edited_segments(segs: Seq<SegmentView>, new: Seq<char>) -> Seq<SegmentView> {
    let old = doc_text(segs);
    let (cp, old_end) = edit_bounds(old, new);
    let new_end = new.len() - (old.len() - old_end);
    let st = split_for_edit(segs, cp, old_end);
    st.before + seq![SegmentView::Text(st.middle + new.subrange(cp, new_end))] + st.after
}

/// The split keeps the text before the edit in `before` and `middle`, and the
/// text after it in `after`.
proof fn lemma_split_text(segs: Seq<SegmentView>, cp: int, old_end: int)
    requires
        0 <= cp <= old_end,
    ensures
        doc_text(split_for_edit(segs, cp, old_end).before) + split_for_edit(segs, cp, old_end).middle
            == doc_text(segs).take(if doc_text(segs).len() < cp { doc_text(segs).len() as int } else { cp }),
        doc_text(segs).len() <= old_end ==> doc_text(split_for_edit(segs, cp, old_end).after).len() == 0,
        doc_text(segs).len() <= cp ==> split_for_edit(segs, cp, old_end).middle.len() == 0,
        doc_text(segs).len() > old_end ==> doc_text(split_for_edit(segs, cp, old_end).after)
            == doc_text(segs).subrange(old_end, doc_text(segs).len() as int),
    decreases segs.len(),
{
    if segs.len() == 0 {
        assert(doc_text(segs).take(0) =~= Seq::<char>::empty());
        assert(Seq::<char>::empty() + Seq::<char>::empty() =~= Seq::<char>::empty());
    } else {
        let rest = segs.drop_last();
        lemma_split_text(rest, cp, old_end);
        let st = split_for_edit(rest, cp, old_end);
        let o = doc_text(segs);
        let p = doc_text(rest);
        let t = seg_text(segs.last());
        let a = p.len() as int;
        let b = a + t.len();
        assert(o == p + t);
        let new_st = split_for_edit(segs, cp, old_end);
        if b <= cp {
            assert(new_st.before.drop_last() =~= st.before);
            assert(doc_text(new_st.before) == doc_text(st.before) + t);
            assert(p.take(a) =~= p);
            assert(o.take(b) =~= p + t);
            assert(doc_text(new_st.before) + new_st.middle =~= doc_text(st.before) + st.middle + t);
        } else if a >= old_end {
            assert(new_st.after.drop_last() =~= st.after);
            assert(o.take(cp) =~= p.take(cp));
            if a > old_end {
                assert(o.subrange(old_end, b) =~= p.subrange(old_end, a) + t);
            } else {
                assert(o.subrange(old_end, b) =~= Seq::<char>::empty() + t);
                assert(doc_text(st.after) =~= Seq::<char>::empty());
            }
        } else {
            if a < cp {
                assert(p.take(a) =~= p);
                assert(o.take(cp) =~= p + t.take(cp - a));
                assert(doc_text(new_st.before) + new_st.middle =~= doc_text(st.before) + st.middle + t.take(cp - a));
            } else {
                assert(new_st.middle =~= st.middle + Seq::<char>::empty());
                assert(o.take(cp) =~= p.take(cp));
            }
            if b > old_end {
                assert(new_st.after.drop_last() =~= st.after);
                assert(o.subrange(old_end, b) =~= t.skip(old_end - a));
                assert(doc_text(st.after) =~= Seq::<char>::empty());
                assert(doc_text(new_st.after) =~= Seq::<char>::empty() + t.skip(old_end - a));
            }
        }
    }
}

/// Applying an edit leaves the document holding exactly the new text.
pub proof fn lemma_edited_text(segs: Seq<SegmentView>, new: Seq<char>)
    ensures
        doc_text(edited_segments(segs, new)) == new,
{
    let o = doc_text(segs);
    let (cp, old_end) = edit_bounds(o, new);
    lemma_common_prefix(o, new);
    lemma_common_suffix(o.skip(cp), new.skip(cp));
    let cs = o.len() - old_end;
    let new_end = new.len() - cs;
    assert(o.skip(cp).skip(o.skip(cp).len() - cs) =~= o.skip(old_end));
    assert(new.skip(cp).skip(new.skip(cp).len() - cs) =~= new.skip(new_end));
    lemma_split_text(segs, cp, old_end);
    let st = split_for_edit(segs, cp, old_end);
    let mid = seq![SegmentView::Text(st.middle + new.subrange(cp, new_end))];
    lemma_doc_text_concat(st.before + mid, st.after);
    lemma_doc_text_concat(st.before, mid);
    assert(doc_text(mid) =~= st.middle + new.subrange(cp, new_end)) by {
        assert(mid.drop_last() =~= Seq::<SegmentView>::empty());
        assert(doc_text(Seq::<SegmentView>::empty()) =~= Seq::<char>::empty());
    }
    if o.len() <= old_end {
        assert(o.skip(old_end) =~= Seq::<char>::empty());
        assert(doc_text(st.after) =~= Seq::<char>::empty());
    }
    assert(new =~= new.take(cp) + new.subrange(cp, new_end) + new.skip(new_end));
    assert(doc_text(edited_segments(segs, new)) =~= new);
}

proof fn lemma_prefix_chars(segs: Seq<SegmentView>, i: int)
    requires
        0 <= i < segs.len(),
    ensures
        doc_text(segs.take(i + 1)) == doc_text(segs.take(i)) + seg_text(segs[i]),
        doc_text(segs.take(i + 1)).len() <= doc_text(segs).len(),
{
    assert(segs.take(i + 1).drop_last() =~= segs.take(i));
    lemma_doc_text_concat(segs.take(i + 1), segs.skip(i + 1));
    assert(segs.take(i + 1) + segs.skip(i + 1) =~= segs);
}

/// The byte length of the first `k` chars.
fn prefix_bytes(chars: &Vec<char>, k: usize, total: usize) -> (r: usize)
    requires
        k <= chars@.len(),
        total == byte_len(chars@),
    ensures
        r == byte_len(chars@.take(k as int)),
{
    let mut sum: usize = 0;
    let mut i: usize = 0;
    while i < k
        invariant
            i <= k <= chars@.len(),
            total == byte_len(chars@),
            sum == byte_len(chars@.take(i as int)),
        decreases k - i,
    {
        proof {
            crate::text::lemma_byte_len_take(chars@, i as int, i as int);
            crate::text::lemma_byte_len_take(chars@, i + 1, i + 1);
        }
        sum = sum + crate::text::char_width(chars[i]);
        i = i + 1;
    }
    sum
}

/// Where an edit from `o` to `n` starts, and where it ends in `o`, in chars.
fn edit_span(o: &Vec<char>, n: &Vec<char>) -> (r: (usize, usize))
    ensures
        (r.0 as int, r.1 as int) == edit_bounds(o@, n@),
        r.0 <= r.1 <= o@.len(),
        r.0 <= n@.len() - (o@.len() - r.1),
{
    let mut cp: usize = 0;
    proof {
        assert(o@.skip(0) =~= o@);
        assert(n@.skip(0) =~= n@);
    }
    while cp < o.len() && cp < n.len() && o[cp] == n[cp]
        invariant
            cp <= o@.len(),
            cp <= n@.len(),
            common_prefix_len(o@.skip(cp as int), n@.skip(cp as int)) + cp == common_prefix_len(
                o@,
                n@,
            ),
        decreases o@.len() - cp,
    {
        assert(o@.skip(cp as int).drop_first() =~= o@.skip(cp + 1));
        assert(n@.skip(cp as int).drop_first() =~= n@.skip(cp + 1));
        cp = cp + 1;
    }
    let ghost o2 = o@.skip(cp as int);
    let ghost n2 = n@.skip(cp as int);
    let mut cs: usize = 0;
    proof {
        assert(o2.take(o2.len() as int) =~= o2);
        assert(n2.take(n2.len() as int) =~= n2);
    }
    while cs < o.len() - cp && cs < n.len() - cp && o[o.len() - 1 - cs] == n[n.len() - 1 - cs]
        invariant
            cp <= o@.len(),
            cp <= n@.len(),
            o2 == o@.skip(cp as int),
            n2 == n@.skip(cp as int),
            cs <= o2.len(),
            cs <= n2.len(),
            common_suffix_len(o2.take(o2.len() - cs), n2.take(n2.len() - cs)) + cs
                == common_suffix_len(o2, n2),
        decreases o2.len() - cs,
    {
        assert(o2.take(o2.len() - cs).drop_last() =~= o2.take(o2.len() - cs - 1));
        assert(n2.take(n2.len() - cs).drop_last() =~= n2.take(n2.len() - cs - 1));
        assert(o2.take(o2.len() - cs).last() == o@[o@.len() - 1 - cs]);
        assert(n2.take(n2.len() - cs).last() == n@[n@.len() - 1 - cs]);
        cs = cs + 1;
    }
    assert(common_suffix_len(o2.take(o2.len() - cs), n2.take(n2.len() - cs)) == 0);
    (cp, o.len() - cs)
}

/// Splits the segments around an edit of the chars `cp..old_end`.
fn split_segments(segments: &Vec<Segment>, cp: usize, old_end: usize, total: usize) -> (r: (
    Vec<Segment>,
    Vec<char>,
    Vec<Segment>,
))
    requires
        cp <= old_end <= total,
        total == doc_text(segs_view(segments@)).len(),
    ensures
        split_for_edit(segs_view(segments@), cp as int, old_end as int) == (EditSplit {
            before: segs_view(r.0@),
            middle: r.1@,
            after: segs_view(r.2@),
        }),
{
    let ghost segs = segs_view(segments@);
    let mut before: Vec<Segment> = Vec::new();
    let mut middle: Vec<char> = Vec::new();
    let mut after: Vec<Segment> = Vec::new();
    let mut a: usize = 0;
    let mut i: usize = 0;
    assert(segs.take(0) =~= Seq::<SegmentView>::empty());
    assert(segs_view(before@) =~= Seq::<SegmentView>::empty());
    assert(segs_view(after@) =~= Seq::<SegmentView>::empty());
    assert(middle@ =~= Seq::<char>::empty());
    while i < segments.len()
        invariant
            segs == segs_view(segments@),
            total == doc_text(segs).len(),
            i <= segs.len(),
            cp <= old_end <= total,
            a == doc_text(segs.take(i as int)).len(),
            split_for_edit(segs.take(i as int), cp as int, old_end as int) == (EditSplit {
                before: segs_view(before@),
                middle: middle@,
                after: segs_view(after@),
            }),
        decreases segs.len() - i,
    {
        proof {
            lemma_prefix_chars(segs, i as int);
            assert(segs[i as int] == segments@[i as int]@);
            assert(segs.take(i + 1).drop_last() =~= segs.take(i as int));
            assert(segs.take(i + 1).last() == segs[i as int]);
        }
        let segment = &segments[i];
        let t = chars_of(segment.text());
        let b = a + t.len();
        let ghost prev_before = before@;
        let ghost prev_after = after@;
        let ghost prev_middle = middle@;
        if b <= cp {
            before.push(segment.clone());
            assert(segs_view(before@) =~= segs_view(prev_before).push(segs[i as int]));
        } else if a >= old_end {
            after.push(segment.clone());
            assert(segs_view(after@) =~= segs_view(prev_after).push(segs[i as int]));
        } else {
            if a < cp {
                let mut k: usize = 0;
                while k < cp - a
                    invariant
                        a < cp < b,
                        b == a + t@.len(),
                        k <= cp - a,
                        middle@ == prev_middle + t@.take(k as int),
                    decreases cp - a - k,
                {
                    middle.push(t[k]);
                    k = k + 1;
                    assert(middle@ =~= prev_middle + t@.take(k as int));
                }
            } else {
                assert(middle@ =~= prev_middle + Seq::<char>::empty());
            }
            if b > old_end {
                let tail = crate::text::string_of_range(&t, old_end - a, t.len());
                after.push(Segment::Text(tail));
                assert(t@.subrange(old_end - a, t@.len() as int) =~= t@.skip(old_end - a));
                assert(segs_view(after@) =~= segs_view(prev_after).push(
                    SegmentView::Text(t@.skip(old_end - a)),
                ));
            }
        }
        a = b;
        i = i + 1;
    }
    assert(segs.take(segs.len() as int) =~= segs);
    (before, middle, after)
}

impl QueryDocument {
    /// Replaces the text with what the field now holds.
    ///
    /// Segments wholly before or after the changed range keep what they are;
    /// whatever the edit touched becomes plain text. Returns where the edit
    /// ended in the new text, in bytes, which stands in for the caret.
    pub fn apply_edit(&mut self, new_text: &str) -> (r: usize)
        ensures
            doc_text(old(self)@) == new_text@ ==> final(self)@ == old(self)@,
            doc_text(old(self)@) != new_text@ ==> final(self)@ == tidied(
                edited_segments(old(self)@, new_text@),
            ),
            doc_text(final(self)@) == new_text@,
            r == byte_len(
                new_text@.take(
                    new_text@.len() - (doc_text(old(self)@).len() - edit_bounds(
                        doc_text(old(self)@),
                        new_text@,
                    ).1),
                ),
            ),
    {
        let ghost segs = self@;
        let old_text = self.text();
        let o = chars_of(old_text.as_str());
        let n = chars_of(new_text);
        let total = utf8_len(new_text);
        let (cp, old_end) = edit_span(&o, &n);
        let new_end = n.len() - (o.len() - old_end);
        let edit_end = prefix_bytes(&n, new_end, total);
        if same_chars(&o, &n) {
            return edit_end;
        }
        let (before, mut middle, after) = split_segments(&self.segments, cp, old_end, o.len());
        let ghost split_middle = middle@;
        let mut k = cp;
        while k < new_end
            invariant
                cp <= k <= new_end <= n@.len(),
                middle@ == split_middle + n@.subrange(cp as int, k as int),
            decreases new_end - k,
        {
            middle.push(n[k]);
            k = k + 1;
            assert(middle@ =~= split_middle + n@.subrange(cp as int, k as int));
        }
        let ghost before_view = segs_view(before@);
        let mut joined = before;
        joined.push(Segment::Text(string_of(&middle)));
        let mut rest = after;
        let ghost after_view = segs_view(rest@);
        joined.append(&mut rest);
        proof {
            assert(segs_view(joined@) =~= before_view + seq![SegmentView::Text(middle@)] + after_view);
            assert(segs_view(joined@) =~= edited_segments(segs, n@));
            lemma_edited_text(segs, n@);
        }
        let tidied_segments = tidy(joined);
        self.segments = tidied_segments;
        edit_end
    }
}

/// Whether two char sequences are equal.
fn same_chars(a: &Vec<char>, b: &Vec<char>) -> (r: bool)
    ensures
        r == (a@ == b@),
{
    if a.len() != b.len() {
        return false;
    }
    let mut i: usize = 0;
    while i < a.len()
        invariant
            a@.len() == b@.len(),
            i <= a@.len(),
            forall|k: int| 0 <= k < i ==> a@[k] == b@[k],
        decreases a@.len() - i,
    {
        if a[i] != b[i] {
            return false;
        }
        i = i + 1;
    }
    assert(a@ =~= b@);
    true
}

/// Whether the edit that ended at `active` is inside the byte range `gs..=ge`.
pub open spec fn being_typed(active: Option<usize>, gs: int, ge: int) -> bool {
    active matches Some(at) && gs <= at <= ge
}

/// The segment an `@` word becomes once confirmed: bound when it names one
/// target, ambiguous when it names several; nothing for a pattern, a word
/// naming nothing, or anything but an `@` word.
pub open spec fn confirmed(
    word: Seq<char>,
    ps: Seq<ProjectEntry>,
    ls: Seq<ListEntry>,
    us: Seq<UserEntry>,
) -> Option<SegmentView> {
    match read_term_of(word) {
        RawTermView::At(w) => if w.wildcard {
            None
        } else {
            let refs = resolved(ps, ls, us, w);
            if refs.len() == 0 {
                None
            } else if refs.len() == 1 {
                Some(SegmentView::Bound(word, refs[0]))
            } else {
                Some(SegmentView::Ambiguous(word, refs))
            }
        },
        _ => None,
    }
}

/// What confirming the words of a text segment at byte `base` has built after
/// its first tokens: the pieces so far, the char where the unconsumed text
/// starts, and where the first ambiguous token starts.
pub struct CommitScan {
    pub pieces: Seq<SegmentView>,
    pub cursor: int,
    pub first: Option<int>,
}

pub open spec fn commit_scan(
    t: Seq<char>,
    base: int,
    toks: Seq<CharToken>,
    active: Option<usize>,
    ps: Seq<ProjectEntry>,
    ls: Seq<ListEntry>,
    us: Seq<UserEntry>,
) -> CommitScan
    decreases toks.len(),
{
    if toks.len() == 0 {
        CommitScan { pieces: Seq::empty(), cursor: 0, first: None }
    } else {
        let st = commit_scan(t, base, toks.drop_last(), active, ps, ls, us);
        let tok = toks.last();
        let gs = base + byte_len(t.take(tok.start as int));
        let ge = base + byte_len(t.take(tok.end as int));
        let word = t.subrange(tok.start as int, tok.end as int);
        if tok.kind == TokenKind::Word && !being_typed(active, gs, ge) && confirmed(
            word,
            ps,
            ls,
            us,
        ) is Some {
            let seg = confirmed(word, ps, ls, us)->0;
            CommitScan {
                pieces: st.pieces.push(SegmentView::Text(t.subrange(st.cursor, tok.start as int))).push(seg),
                cursor: tok.end as int,
                first: if st.first is None && seg is Ambiguous {
                    Some(gs)
                } else {
                    st.first
                },
            }
        } else {
            st
        }
    }
}

/// The segments a text segment at byte `base` becomes.
pub open spec fn text_pieces(
    t: Seq<char>,
    base: int,
    active: Option<usize>,
    ps: Seq<ProjectEntry>,
    ls: Seq<ListEntry>,
    us: Seq<UserEntry>,
) -> Seq<SegmentView> {
    let st = commit_scan(t, base, char_tokens_of(t), active, ps, ls, us);
    st.pieces.push(SegmentView::Text(t.skip(st.cursor)))
}

/// Every segment of `segs` confirmed as in [`QueryDocument::commit`], before
/// tidying, and where the first newly ambiguous token starts.
pub open spec fn commit_all(
    segs: Seq<SegmentView>,
    active: Option<usize>,
    ps: Seq<ProjectEntry>,
    ls: Seq<ListEntry>,
    us: Seq<UserEntry>,
) -> (Seq<SegmentView>, Option<int>)
    decreases segs.len(),
{
    if segs.len() == 0 {
        (Seq::empty(), None)
    } else {
        let (out, first) = commit_all(segs.drop_last(), active, ps, ls, us);
        let base = byte_len(doc_text(segs.drop_last())) as int;
        match segs.last() {
            SegmentView::Text(t) => {
                let st = commit_scan(t, base, char_tokens_of(t), active, ps, ls, us);
                (out + st.pieces.push(SegmentView::Text(t.skip(st.cursor))), if first is Some {
                    first
                } else {
                    st.first
                })
            },
            other => (out.push(other), first),
        }
    }
}

proof fn lemma_scan_text(
    t: Seq<char>,
    base: int,
    toks: Seq<CharToken>,
    active: Option<usize>,
    ps: Seq<ProjectEntry>,
    ls: Seq<ListEntry>,
    us: Seq<UserEntry>,
)
    requires
        tokens_in_bounds(toks, 0, t.len() as int),
        tokens_ordered(toks),
    ensures
        0 <= commit_scan(t, base, toks, active, ps, ls, us).cursor <= t.len(),
        toks.len() > 0 ==> commit_scan(t, base, toks, active, ps, ls, us).cursor <= toks.last().end,
        doc_text(commit_scan(t, base, toks, active, ps, ls, us).pieces) == t.take(
            commit_scan(t, base, toks, active, ps, ls, us).cursor,
        ),
    decreases toks.len(),
{
    if toks.len() == 0 {
        assert(t.take(0) =~= Seq::<char>::empty());
    } else {
        let rest = toks.drop_last();
        assert(tokens_in_bounds(rest, 0, t.len() as int)) by {
            assert forall|k: int| 0 <= k < rest.len() implies 0 <= #[trigger] rest[k].start < rest[k].end <= t.len() by {
                assert(rest[k] == toks[k]);
            }
        }
        assert(tokens_ordered(rest)) by {
            assert forall|j: int, k: int| 0 <= j < k < rest.len() implies (#[trigger] rest[j]).end <= (#[trigger] rest[k]).start by {
                assert(rest[j] == toks[j] && rest[k] == toks[k]);
            }
        }
        lemma_scan_text(t, base, rest, active, ps, ls, us);
        let st = commit_scan(t, base, rest, active, ps, ls, us);
        let tok = toks.last();
        assert(0 <= tok.start < tok.end <= t.len());
        if rest.len() > 0 {
            assert(rest.last() == toks[toks.len() - 2]);
            assert(toks[toks.len() - 2].end <= toks[toks.len() - 1].start);
        }
        let new_st = commit_scan(t, base, toks, active, ps, ls, us);
        if new_st.cursor != st.cursor || new_st.pieces != st.pieces {
            let seg = confirmed(t.subrange(tok.start as int, tok.end as int), ps, ls, us)->0;
            let p1 = st.pieces.push(SegmentView::Text(t.subrange(st.cursor, tok.start as int)));
            assert(p1.drop_last() =~= st.pieces);
            assert(new_st.pieces.drop_last() =~= p1);
            assert(doc_text(p1) =~= t.take(st.cursor) + t.subrange(st.cursor, tok.start as int));
            assert(seg_text(seg) == t.subrange(tok.start as int, tok.end as int));
            assert(doc_text(new_st.pieces) =~= t.take(tok.end as int));
        }
    }
}

proof fn lemma_text_pieces(
    t: Seq<char>,
    base: int,
    active: Option<usize>,
    ps: Seq<ProjectEntry>,
    ls: Seq<ListEntry>,
    us: Seq<UserEntry>,
)
    requires
        t.len() <= usize::MAX,
    ensures
        doc_text(text_pieces(t, base, active, ps, ls, us)) == t,
{
    lemma_tokens_from_bounds(t, 0);
    lemma_tokens_from_ordered(t, 0);
    lemma_scan_text(t, base, char_tokens_of(t), active, ps, ls, us);
    let st = commit_scan(t, base, char_tokens_of(t), active, ps, ls, us);
    let p = st.pieces.push(SegmentView::Text(t.skip(st.cursor)));
    assert(p.drop_last() =~= st.pieces);
    assert(doc_text(p) =~= t.take(st.cursor) + t.skip(st.cursor));
    assert(t.take(st.cursor) + t.skip(st.cursor) =~= t);
}

/// Confirming words keeps the text.
pub proof fn lemma_commit_text(
    segs: Seq<SegmentView>,
    active: Option<usize>,
    ps: Seq<ProjectEntry>,
    ls: Seq<ListEntry>,
    us: Seq<UserEntry>,
)
    requires
        forall|i: int| 0 <= i < segs.len() ==> seg_text(#[trigger] segs[i]).len() <= usize::MAX,
    ensures
        doc_text(commit_all(segs, active, ps, ls, us).0) == doc_text(segs),
    decreases segs.len(),
{
    if segs.len() > 0 {
        let rest = segs.drop_last();
        assert forall|i: int| 0 <= i < rest.len() implies seg_text(#[trigger] rest[i]).len() <= usize::MAX by {
            assert(rest[i] == segs[i]);
        }
        lemma_commit_text(rest, active, ps, ls, us);
        let (out, first) = commit_all(rest, active, ps, ls, us);
        let base = byte_len(doc_text(rest)) as int;
        match segs.last() {
            SegmentView::Text(t) => {
                assert(seg_text(segs[segs.len() - 1]).len() <= usize::MAX);
                lemma_text_pieces(t, base, active, ps, ls, us);
                lemma_doc_text_concat(out, text_pieces(t, base, active, ps, ls, us));
            },
            other => {
                assert(out.push(other).drop_last() =~= out);
            },
        }
    }
}

pub open spec fn opt_offset(o: Option<usize>) -> Option<int> {
    match o {
        Some(x) => Some(x as int),
        None => None,
    }
}

/// The segments a text segment at byte `base` becomes once its words are confirmed.
fn commit_text(t: &str, base: usize, index: &NameIndex, active: Option<usize>) -> (r: (
    Vec<Segment>,
    Option<usize>,
))
    requires
        base + byte_len(t@) <= usize::MAX,
    ensures
        segs_view(r.0@) == text_pieces(
            t@,
            base as int,
            active,
            index.project_entries(),
            index.list_entries(),
            index.user_entries(),
        ),
        opt_offset(r.1) == commit_scan(
            t@,
            base as int,
            char_tokens_of(t@),
            active,
            index.project_entries(),
            index.list_entries(),
            index.user_entries(),
        ).first,
{
    let ghost ps = index.project_entries();
    let ghost ls = index.list_entries();
    let ghost us = index.user_entries();
    let chars = chars_of(t);
    let toks = char_tokens(&chars);
    let offsets = byte_offsets(&chars);
    proof {
        lemma_tokens_from_ordered(chars@, 0);
    }
    let mut pieces: Vec<Segment> = Vec::new();
    let mut cursor: usize = 0;
    let mut first: Option<usize> = None;
    let mut k: usize = 0;
    assert(toks@.take(0) =~= Seq::<CharToken>::empty());
    assert(segs_view(pieces@) =~= Seq::<SegmentView>::empty());
    while k < toks.len()
        invariant
            chars@ == t@,
            toks@ == char_tokens_of(t@),
            tokens_in_bounds(toks@, 0, chars@.len() as int),
            tokens_ordered(toks@),
            base + byte_len(t@) <= usize::MAX,
            offsets@.len() == chars@.len() + 1,
            forall|i: int| 0 <= i <= chars@.len() ==> #[trigger] offsets@[i] == byte_len(chars@.take(i)),
            k <= toks@.len(),
            commit_scan(t@, base as int, toks@.take(k as int), active, ps, ls, us) == (CommitScan {
                pieces: segs_view(pieces@),
                cursor: cursor as int,
                first: opt_offset(first),
            }),
            ps == index.project_entries(),
            ls == index.list_entries(),
            us == index.user_entries(),
        decreases toks@.len() - k,
    {
        let tok = toks[k];
        proof {
            assert(toks@.take(k + 1).drop_last() =~= toks@.take(k as int));
            assert(toks@.take(k + 1).last() == tok);
            let sub = toks@.take(k as int);
            assert(tokens_in_bounds(sub, 0, chars@.len() as int)) by {
                assert forall|j: int| 0 <= j < sub.len() implies 0 <= #[trigger] sub[j].start < sub[j].end <= chars@.len() by {
                    assert(sub[j] == toks@[j]);
                }
            }
            assert(tokens_ordered(sub)) by {
                assert forall|a: int, b: int| 0 <= a < b < sub.len() implies (#[trigger] sub[a]).end <= (#[trigger] sub[b]).start by {
                    assert(sub[a] == toks@[a] && sub[b] == toks@[b]);
                }
            }
            lemma_scan_text(t@, base as int, sub, active, ps, ls, us);
            if k > 0 {
                assert(sub.last() == toks@[k - 1]);
                assert(toks@[k - 1].end <= toks@[k as int].start);
            }
            assert(0 <= tok.start < tok.end <= chars@.len());
            crate::text::lemma_byte_len_take(chars@, tok.start as int, tok.start as int);
            crate::text::lemma_byte_len_take(chars@, tok.end as int, tok.end as int);
        }
        if tok.kind == TokenKind::Word {
            let gs = base + offsets[tok.start];
            let ge = base + offsets[tok.end];
            let typed = match active {
                Some(at) => gs <= at && at <= ge,
                None => false,
            };
            if !typed {
                let word = crate::text::string_of_range(&chars, tok.start, tok.end);
                let term = read_term(word.as_str());
                match term {
                    RawTerm::At(w) => {
                        if !w.wildcard {
                            let refs = index.resolve(&w);
                            if refs.len() >= 1 {
                                let ghost before = pieces@;
                                let seg = if refs.len() == 1 {
                                    Segment::Bound { text: word, reference: refs[0].clone() }
                                } else {
                                    Segment::Ambiguous { text: word, candidates: refs }
                                };
                                let is_ambiguous = !seg.is_text() && match seg {
                                    Segment::Ambiguous { .. } => true,
                                    _ => false,
                                };
                                let gap = crate::text::string_of_range(&chars, cursor, tok.start);
                                pieces.push(Segment::Text(gap));
                                pieces.push(seg);
                                if first.is_none() && is_ambiguous {
                                    first = Some(gs);
                                }
                                cursor = tok.end;
                                assert(segs_view(pieces@) =~= segs_view(before).push(
                                    SegmentView::Text(t@.subrange(
                                        commit_scan(t@, base as int, toks@.take(k as int), active, ps, ls, us).cursor,
                                        tok.start as int,
                                    )),
                                ).push(pieces@.last()@));
                            }
                        }
                    },
                    _ => {},
                }
            }
        }
        k = k + 1;
    }
    assert(toks@.take(toks@.len() as int) =~= toks@);
    proof {
        lemma_scan_text(t@, base as int, toks@, active, ps, ls, us);
    }
    let ghost before = pieces@;
    let tail = crate::text::string_of_range(&chars, cursor, chars.len());
    pieces.push(Segment::Text(tail));
    assert(chars@.subrange(cursor as int, chars@.len() as int) =~= t@.skip(cursor as int));
    assert(segs_view(pieces@) =~= segs_view(before).push(SegmentView::Text(t@.skip(cursor as int))));
    (pieces, first)
}

impl QueryDocument {
    /// Confirms every `@` word that is not being typed at `active`.
    ///
    /// A word naming exactly one target becomes bound, one naming several
    /// becomes ambiguous; a word naming nothing, or a `*` pattern, stays text.
    /// Returns where the first newly ambiguous token starts.
    pub fn commit(&mut self, index: &NameIndex, active: Option<usize>) -> (r: Option<usize>)
        ensures
            final(self)@ == tidied(
                commit_all(
                    old(self)@,
                    active,
                    index.project_entries(),
                    index.list_entries(),
                    index.user_entries(),
                ).0,
            ),
            opt_offset(r) == commit_all(
                old(self)@,
                active,
                index.project_entries(),
                index.list_entries(),
                index.user_entries(),
            ).1,
            doc_text(final(self)@) == doc_text(old(self)@),
    {
        proof {
            use_type_invariant(&*self);
        }
        let ghost ps = index.project_entries();
        let ghost ls = index.list_entries();
        let ghost us = index.user_entries();
        let ghost segs = self@;
        let mut out: Vec<Segment> = Vec::new();
        let mut first: Option<usize> = None;
        let mut base: usize = 0;
        let mut i: usize = 0;
        assert(segs.take(0) =~= Seq::<SegmentView>::empty());
        assert(segs_view(out@) =~= Seq::<SegmentView>::empty());
        while i < self.segments.len()
            invariant
                segs == segs_view(self.segments@),
                byte_len(doc_text(segs)) <= usize::MAX,
                i <= segs.len(),
                base == byte_len(doc_text(segs.take(i as int))),
                commit_all(segs.take(i as int), active, ps, ls, us) == (segs_view(out@), opt_offset(first)),
                ps == index.project_entries(),
                ls == index.list_entries(),
                us == index.user_entries(),
            decreases segs.len() - i,
        {
            proof {
                lemma_prefix_bytes(segs, i as int);
                lemma_prefix_bytes(segs, i + 1);
                assert(segs[i as int] == self.segments@[i as int]@);
                assert(segs.take(i + 1).drop_last() =~= segs.take(i as int));
                assert(segs.take(i + 1).last() == segs[i as int]);
            }
            let segment = &self.segments[i];
            let width = utf8_len(segment.text());
            let ghost before = out@;
            match segment {
                Segment::Text(text) => {
                    let (pieces, found) = commit_text(text.as_str(), base, index, active);
                    let mut pieces = pieces;
                    let ghost piece_view = segs_view(pieces@);
                    out.append(&mut pieces);
                    assert(segs_view(out@) =~= segs_view(before) + piece_view);
                    if first.is_none() {
                        first = found;
                    }
                },
                _ => {
                    out.push(segment.clone());
                    assert(segs_view(out@) =~= segs_view(before).push(segs[i as int]));
                },
            }
            base = base + width;
            i = i + 1;
        }
        assert(segs.take(segs.len() as int) =~= segs);
        proof {
            assert forall|j: int| 0 <= j < segs.len() implies seg_text(#[trigger] segs[j]).len() <= usize::MAX by {
                lemma_prefix_bytes(segs, j);
                lemma_prefix_bytes(segs, j + 1);
                crate::text::lemma_byte_len_at_least_len(seg_text(segs[j]));
            }
            lemma_commit_text(segs, active, ps, ls, us);
        }
        self.segments = tidy(out);
        first
    }
}

/// The first ambiguous segment at or after `i` that starts at byte `start`.
pub open spec fn ambiguous_from(segs: Seq<SegmentView>, start: int, i: int) -> Option<int>
    decreases segs.len() - i,
{
    if i < 0 || i >= segs.len() {
        None
    } else if segs[i] is Ambiguous && seg_span(segs, i).0 == start {
        Some(i)
    } else {
        ambiguous_from(segs, start, i + 1)
    }
}

/// The first ambiguous segment at or after `i`.
pub open spec fn first_ambiguous_from(segs: Seq<SegmentView>, i: int) -> Option<int>
    decreases segs.len() - i,
{
    if i < 0 || i >= segs.len() {
        None
    } else if segs[i] is Ambiguous {
        Some(i)
    } else {
        first_ambiguous_from(segs, i + 1)
    }
}

/// The first segment at or after `i` that starts at `start`, is ambiguous and
/// has `r` among its candidates.
pub open spec fn choosable_from(segs: Seq<SegmentView>, start: int, r: ReferenceView, i: int) -> Option<int>
    decreases segs.len() - i,
{
    if i < 0 || i >= segs.len() {
        None
    } else if seg_span(segs, i).0 == start && (segs[i] matches SegmentView::Ambiguous(_, c) && c.contains(r)) {
        Some(i)
    } else {
        choosable_from(segs, start, r, i + 1)
    }
}

/// The internal query: confirmed tokens as references, the rest as typed.
pub open spec fn canonical_text(segs: Seq<SegmentView>) -> Seq<char>
    decreases segs.len(),
{
    if segs.len() == 0 {
        Seq::empty()
    } else {
        canonical_text(segs.drop_last()) + match segs.last() {
            SegmentView::Bound(_, r) => crate::search::resolve::canonical_of(r),
            other => seg_text(other),
        }
    }
}

impl QueryDocument {
    /// Where segment `i` starts, in bytes.
    fn start_offsets(&self) -> (r: Vec<usize>)
        ensures
            r@.len() == self@.len(),
            forall|i: int| 0 <= i < r@.len() ==> #[trigger] r@[i] == seg_span(self@, i).0,
    {
        let spans = self.spans();
        let mut out: Vec<usize> = Vec::new();
        let mut i: usize = 0;
        while i < spans.len()
            invariant
                i <= spans@.len(),
                spans@.len() == self@.len(),
                forall|k: int| 0 <= k < spans@.len() ==> (#[trigger] spans@[k]).start == seg_span(self@, k).0,
                out@.len() == i,
                forall|k: int| 0 <= k < i ==> #[trigger] out@[k] == seg_span(self@, k).0,
            decreases spans@.len() - i,
        {
            out.push(spans[i].start);
            i = i + 1;
        }
        out
    }

    /// The ambiguous token starting at `start`, if it is still there.
    pub fn ambiguous_at(&self, start: usize) -> (r: Option<&[Reference]>)
        ensures
            match ambiguous_from(self@, start as int, 0) {
                Some(i) => r matches Some(c) && self@[i] matches SegmentView::Ambiguous(_, cs) && refs_view(c@) == cs,
                None => r is None,
            },
    {
        let starts = self.start_offsets();
        let ghost segs = self@;
        let mut i: usize = 0;
        while i < self.segments.len()
            invariant
                segs == self@,
                segs == segs_view(self.segments@),
                starts@.len() == segs.len(),
                forall|k: int| 0 <= k < starts@.len() ==> #[trigger] starts@[k] == seg_span(segs, k).0,
                i <= segs.len(),
                ambiguous_from(segs, start as int, i as int) == ambiguous_from(segs, start as int, 0),
            decreases segs.len() - i,
        {
            assert(segs[i as int] == self.segments@[i as int]@);
            if starts[i] == start {
                match &self.segments[i] {
                    Segment::Ambiguous { candidates, .. } => {
                        return Some(candidates.as_slice());
                    },
                    _ => {},
                }
            }
            i = i + 1;
        }
        None
    }

    /// Where the first ambiguous token starts.
    pub fn first_ambiguous(&self) -> (r: Option<usize>)
        ensures
            match first_ambiguous_from(self@, 0) {
                Some(i) => r == Some(seg_span(self@, i).0 as usize),
                None => r is None,
            },
    {
        let starts = self.start_offsets();
        let ghost segs = self@;
        let mut i: usize = 0;
        while i < self.segments.len()
            invariant
                segs == self@,
                segs == segs_view(self.segments@),
                starts@.len() == segs.len(),
                forall|k: int| 0 <= k < starts@.len() ==> #[trigger] starts@[k] == seg_span(segs, k).0,
                i <= segs.len(),
                first_ambiguous_from(segs, i as int) == first_ambiguous_from(segs, 0),
            decreases segs.len() - i,
        {
            assert(segs[i as int] == self.segments@[i as int]@);
            match &self.segments[i] {
                Segment::Ambiguous { .. } => {
                    return Some(starts[i]);
                },
                _ => {},
            }
            i = i + 1;
        }
        None
    }

    /// Narrows the ambiguous token at `start` to one of its candidates.
    pub fn choose_reference(&mut self, start: usize, reference: Reference) -> (r: bool)
        ensures
            r == choosable_from(old(self)@, start as int, reference@, 0) is Some,
            match choosable_from(old(self)@, start as int, reference@, 0) {
                Some(i) => final(self)@ == old(self)@.update(
                    i,
                    SegmentView::Bound(seg_text(old(self)@[i]), reference@),
                ),
                None => final(self)@ == old(self)@,
            },
    {
        let starts = self.start_offsets();
        let ghost segs = self@;
        let mut i: usize = 0;
        while i < self.segments.len()
            invariant
                segs == old(self)@,
                segs == segs_view(self.segments@),
                starts@.len() == segs.len(),
                forall|k: int| 0 <= k < starts@.len() ==> #[trigger] starts@[k] == seg_span(segs, k).0,
                i <= segs.len(),
                choosable_from(segs, start as int, reference@, i as int) == choosable_from(segs, start as int, reference@, 0),
            decreases segs.len() - i,
        {
            assert(segs[i as int] == self.segments@[i as int]@);
            if starts[i] == start {
                let hit = match &self.segments[i] {
                    Segment::Ambiguous { candidates, .. } => crate::search::resolve::contains_reference(candidates, &reference),
                    _ => false,
                };
                if hit {
                    let text = String::from_str(self.segments[i].text());
                    proof {
                        use_type_invariant(&*self);
                    }
                    let mut segments: Vec<Segment> = Vec::new();
                    std::mem::swap(&mut segments, &mut self.segments);
                    segments.set(i, Segment::Bound { text, reference });
                    proof {
                        assert(segs_view(segments@) =~= segs.update(i as int, SegmentView::Bound(seg_text(segs[i as int]), reference@)));
                        lemma_same_texts(segs_view(segments@), segs);
                    }
                    self.segments = segments;
                    return true;
                }
            }
            i = i + 1;
        }
        false
    }

    /// The internal query: confirmed tokens as references, the rest as typed.
    pub fn canonical(&self) -> (r: String)
        ensures
            r@ == canonical_text(self@),
    {
        let ghost segs = self@;
        let mut out = String::new();
        let mut i: usize = 0;
        while i < self.segments.len()
            invariant
                segs == segs_view(self.segments@),
                i <= segs.len(),
                out@ == canonical_text(segs.take(i as int)),
            decreases segs.len() - i,
        {
            proof {
                assert(segs.take(i + 1).drop_last() =~= segs.take(i as int));
                assert(segs[i as int] == self.segments@[i as int]@);
            }
            match &self.segments[i] {
                Segment::Bound { reference, .. } => {
                    let c = reference.canonical();
                    push_str(&mut out, c.as_str());
                },
                other => push_str(&mut out, other.text()),
            }
            i = i + 1;
        }
        assert(segs.take(segs.len() as int) =~= segs);
        out
    }
}

/// Whether byte offset `b` of `t` falls between two chars.
pub open spec fn on_boundary(t: Seq<char>, b: int) -> bool {
    exists|k: int| 0 <= k <= t.len() && byte_len(#[trigger] t.take(k)) == b
}

/// The number of chars of `t` that take `b` bytes.
pub open spec fn chars_in(t: Seq<char>, b: int) -> int {
    choose|k: int| 0 <= k <= t.len() && byte_len(#[trigger] t.take(k)) == b
}

proof fn lemma_chars_in(t: Seq<char>, b: int, k: int)
    requires
        0 <= k <= t.len(),
        byte_len(t.take(k)) == b,
    ensures
        chars_in(t, b) == k,
{
    let j = chars_in(t, b);
    assert(0 <= j <= t.len() && byte_len(t.take(j)) == b);
    if j < k {
        crate::text::lemma_byte_len_take(t, j, k);
    } else if k < j {
        crate::text::lemma_byte_len_take(t, k, j);
    }
}

/// Every text segment that the byte range `start..end` cuts is cut between chars.
pub open spec fn cuts_between_chars(segs: Seq<SegmentView>, start: int, end: int) -> bool {
    forall|i: int|
        0 <= i < segs.len() && #[trigger] segs[i] is Text ==> {
            let (s, e) = seg_span(segs, i);
            &&& (s < start < e ==> on_boundary(seg_text(segs[i]), start - s))
            &&& (s < end < e ==> on_boundary(seg_text(segs[i]), end - s))
        }
}

/// The segments with `new` put in place of the bytes `start..end`, before
/// tidying, and whether it was placed yet: segments wholly outside the range
/// are kept, text cut by it keeps its parts outside it, and anything else in
/// it is dropped.
pub open spec fn replace_scan(segs: Seq<SegmentView>, start: int, end: int, new: SegmentView) -> (
    Seq<SegmentView>,
    bool,
)
    decreases segs.len(),
{
    if segs.len() == 0 {
        (Seq::empty(), false)
    } else {
        let (out, placed) = replace_scan(segs.drop_last(), start, end, new);
        let s = byte_len(doc_text(segs.drop_last())) as int;
        replace_step(out, placed, segs.last(), s, start, end, new)
    }
}

/// One segment, at byte `s`, handled as [`replace_scan`] describes.
pub open spec fn replace_step(
    out: Seq<SegmentView>,
    placed: bool,
    cur: SegmentView,
    s: int,
    start: int,
    end: int,
    new: SegmentView,
) -> (Seq<SegmentView>, bool) {
    let t = seg_text(cur);
    let e = s + byte_len(t);
    if e <= start && s != start {
        (out.push(cur), placed)
    } else if s >= end && e != end {
        (if placed {
            out.push(cur)
        } else {
            out.push(new).push(cur)
        }, true)
    } else if cur is Text {
        let o1 = if s < start {
            out.push(SegmentView::Text(t.take(chars_in(t, start - s))))
        } else {
            out
        };
        let o2 = if placed {
            o1
        } else {
            o1.push(new)
        };
        (if e > end {
            o2.push(SegmentView::Text(t.skip(chars_in(t, end - s))))
        } else {
            o2
        }, true)
    } else {
        (if placed {
            out
        } else {
            out.push(new)
        }, true)
    }
}

pub open spec fn replaced(segs: Seq<SegmentView>, start: int, end: int, new: SegmentView) -> Seq<SegmentView> {
    let (out, placed) = replace_scan(segs, start, end, new);
    if placed {
        out
    } else {
        out.push(new)
    }
}

/// The parts of a text outside a cut take no more bytes than the text.
proof fn lemma_cut_bytes(t: Seq<char>, s: int, e: int, start: int, end: int)
    requires
        start <= end,
        e == s + byte_len(t),
        s < start < e ==> on_boundary(t, start - s),
        s < end < e ==> on_boundary(t, end - s),
        !(e <= start && s != start),
        !(s >= end && e != end),
    ensures
        byte_len(if s < start { t.take(chars_in(t, start - s)) } else { Seq::<char>::empty() })
            + byte_len(if e > end { t.skip(chars_in(t, end - s)) } else { Seq::<char>::empty() })
            <= byte_len(t),
{
    let before_piece = if s < start { t.take(chars_in(t, start - s)) } else { Seq::<char>::empty() };
    let after_piece = if e > end { t.skip(chars_in(t, end - s)) } else { Seq::<char>::empty() };
    assert(byte_len(Seq::<char>::empty()) == 0);
    if s < start {
        assert(start < e);
        let k = choose|k: int| 0 <= k <= t.len() && byte_len(#[trigger] t.take(k)) == start - s;
        lemma_chars_in(t, start - s, k);
        crate::text::lemma_byte_len_take(t, k, k);
    }
    if e > end {
        assert(s < end);
        let k = choose|k: int| 0 <= k <= t.len() && byte_len(#[trigger] t.take(k)) == end - s;
        lemma_chars_in(t, end - s, k);
        lemma_byte_len_concat(t.take(k), t.skip(k));
        assert(t.take(k) + t.skip(k) =~= t);
        if s < start {
            let a = chars_in(t, start - s);
            if k < a {
                crate::text::lemma_byte_len_take(t, k, a);
            }
            crate::text::lemma_byte_len_take(t, a, k);
        }
    }
}

/// Replacing never adds more than the new segment's text.
#[verifier::rlimit(40)]
proof fn lemma_replace_bytes(segs: Seq<SegmentView>, start: int, end: int, new: SegmentView)
    requires
        start <= end,
        cuts_between_chars(segs, start, end),
    ensures
        byte_len(doc_text(replace_scan(segs, start, end, new).0)) + (if replace_scan(segs, start, end, new).1 { 0 } else { byte_len(seg_text(new)) })
            <= byte_len(doc_text(segs)) + byte_len(seg_text(new)),
    decreases segs.len(),
{
    if segs.len() > 0 {
        let rest = segs.drop_last();
        assert(cuts_between_chars(rest, start, end)) by {
            assert forall|i: int| 0 <= i < rest.len() && #[trigger] rest[i] is Text implies {
                let (s, e) = seg_span(rest, i);
                &&& (s < start < e ==> on_boundary(seg_text(rest[i]), start - s))
                &&& (s < end < e ==> on_boundary(seg_text(rest[i]), end - s))
            } by {
                assert(rest[i] == segs[i]);
                assert(rest.take(i) =~= segs.take(i));
                assert(rest.take(i + 1) =~= segs.take(i + 1));
            }
        }
        lemma_replace_bytes(rest, start, end, new);
        let (out, placed) = replace_scan(rest, start, end, new);
        let cur = segs.last();
        let t = seg_text(cur);
        let s = byte_len(doc_text(rest)) as int;
        let e = s + byte_len(t);
        let n = byte_len(seg_text(new));
        let i = segs.len() - 1;
        assert(segs.take(i) =~= rest);
        assert(segs.take(i + 1) =~= segs);
        assert(doc_text(segs) == doc_text(rest) + t);
        lemma_byte_len_concat(doc_text(rest), t);
        let (o, p) = replace_scan(segs, start, end, new);
        if e <= start && s != start {
            assert(o.drop_last() =~= out);
            lemma_byte_len_concat(doc_text(out), t);
        } else if s >= end && e != end {
            if placed {
                assert(o.drop_last() =~= out);
                lemma_byte_len_concat(doc_text(out), t);
            } else {
                assert(o.drop_last().drop_last() =~= out);
                assert(o.drop_last() =~= out.push(new));
                lemma_byte_len_concat(doc_text(out), seg_text(new));
                lemma_byte_len_concat(doc_text(out.push(new)), t);
            }
        } else if cur is Text {
            let before_piece = if s < start { t.take(chars_in(t, start - s)) } else { Seq::<char>::empty() };
            let after_piece = if e > end { t.skip(chars_in(t, end - s)) } else { Seq::<char>::empty() };
            if s < start {
                assert(seg_span(segs, i) == (s, e));
            }
            lemma_cut_bytes(t, s, e, start, end);
            let o1 = if s < start { out.push(SegmentView::Text(before_piece)) } else { out };
            let o2 = if placed { o1 } else { o1.push(new) };
            if s < start {
                assert(o1.drop_last() =~= out);
                lemma_byte_len_concat(doc_text(out), before_piece);
            }
            if !placed {
                assert(o2.drop_last() =~= o1);
                lemma_byte_len_concat(doc_text(o1), seg_text(new));
            }
            if e > end {
                assert(o.drop_last() =~= o2);
                lemma_byte_len_concat(doc_text(o2), after_piece);
            }
        } else {
            if !placed {
                assert(o.drop_last() =~= out);
                lemma_byte_len_concat(doc_text(out), seg_text(new));
            }
        }
    }
}

/// The number of chars that take `b` bytes, for `b` on a char boundary.
fn chars_for_bytes(chars: &Vec<char>, b: usize) -> (k: usize)
    requires
        on_boundary(chars@, b as int),
    ensures
        k as int == chars_in(chars@, b as int),
        k <= chars@.len(),
        byte_len(chars@.take(k as int)) == b,
{
    let ghost k0 = choose|k: int| 0 <= k <= chars@.len() && byte_len(#[trigger] chars@.take(k)) == b;
    let n = chars.len();
    let mut k: usize = 0;
    let mut sum: usize = 0;
    assert(chars@.take(0) =~= Seq::<char>::empty());
    while sum < b
        invariant
            n == chars@.len(),
            0 <= k0 <= chars@.len(),
            byte_len(chars@.take(k0)) == b,
            k <= k0,
            sum == byte_len(chars@.take(k as int)),
        decreases k0 - k,
    {
        proof {
            if k == k0 {
                assert(false);
            }
            assert(k < k0);
            crate::text::lemma_byte_len_take(chars@, k as int, k as int);
            crate::text::lemma_byte_len_take(chars@, k + 1, k0);
        }
        sum = sum + crate::text::char_width(chars[k]);
        k = k + 1;
    }
    proof {
        if k < k0 {
            crate::text::lemma_byte_len_take(chars@, k as int, k0);
        }
        lemma_chars_in(chars@, b as int, k as int);
    }
    k
}

/// Handles one segment, at byte `s`, of a replacement of the bytes `start..end`.
fn push_replaced(
    next: &mut Vec<Segment>,
    placed: bool,
    current: &Segment,
    s: usize,
    start: usize,
    end: usize,
    segment: &Segment,
) -> (r: bool)
    requires
        s + byte_len(seg_text(current@)) <= usize::MAX,
        current@ is Text ==> (s < start < s + byte_len(seg_text(current@)) ==> on_boundary(seg_text(current@), start - s)),
        current@ is Text ==> (s < end < s + byte_len(seg_text(current@)) ==> on_boundary(seg_text(current@), end - s)),
    ensures
        (segs_view(final(next)@), r) == replace_step(segs_view(old(next)@), placed, current@, s as int, start as int, end as int, segment@),
{
    let ghost before = next@;
    let e = s + utf8_len(current.text());
    if e <= start && s != start {
        next.push(current.clone());
        assert(segs_view(next@) =~= segs_view(before).push(current@));
        placed
    } else if s >= end && e != end {
        if !placed {
            next.push(segment.clone());
        }
        let ghost mid = next@;
        next.push(current.clone());
        assert(segs_view(next@) =~= segs_view(mid).push(current@));
        if !placed {
            assert(segs_view(mid) =~= segs_view(before).push(segment@));
        }
        true
    } else if current.is_text() {
        let chars = chars_of(current.text());
        if s < start {
            let k = chars_for_bytes(&chars, start - s);
            next.push(Segment::Text(crate::text::string_of_range(&chars, 0, k)));
            assert(chars@.subrange(0, k as int) =~= chars@.take(k as int));
        }
        let ghost o1 = next@;
        if !placed {
            next.push(segment.clone());
        }
        let ghost o2 = next@;
        if e > end {
            let k = chars_for_bytes(&chars, end - s);
            next.push(Segment::Text(crate::text::string_of_range(&chars, k, chars.len())));
            assert(chars@.subrange(k as int, chars@.len() as int) =~= chars@.skip(k as int));
        }
        proof {
            if s < start {
                assert(segs_view(o1) =~= segs_view(before).push(o1.last()@));
            } else {
                assert(segs_view(o1) =~= segs_view(before));
            }
            if !placed {
                assert(segs_view(o2) =~= segs_view(o1).push(segment@));
            }
            if e > end {
                assert(segs_view(next@) =~= segs_view(o2).push(next@.last()@));
            }
        }
        true
    } else {
        if !placed {
            next.push(segment.clone());
            assert(segs_view(next@) =~= segs_view(before).push(segment@));
        }
        true
    }
}

/// The replaced segments take no more bytes than the old ones and the new one.
proof fn lemma_replaced_bytes(segs: Seq<SegmentView>, start: int, end: int, new: SegmentView)
    requires
        start <= end,
        cuts_between_chars(segs, start, end),
    ensures
        byte_len(doc_text(replaced(segs, start, end, new))) <= byte_len(doc_text(segs)) + byte_len(seg_text(new)),
{
    lemma_replace_bytes(segs, start, end, new);
    let (o, p) = replace_scan(segs, start, end, new);
    if !p {
        assert(o.push(new).drop_last() =~= o);
        lemma_byte_len_concat(doc_text(o), seg_text(new));
    }
}

/// What [`push_replaced`] needs of segment `i`.
proof fn lemma_cut_segment(segs: Seq<SegmentView>, i: int, start: int, end: int)
    requires
        0 <= i < segs.len(),
        cuts_between_chars(segs, start, end),
        byte_len(doc_text(segs)) <= usize::MAX,
    ensures
        seg_span(segs, i).0 + byte_len(seg_text(segs[i])) <= usize::MAX,
        seg_span(segs, i).0 == byte_len(doc_text(segs.take(i + 1).drop_last())),
        segs[i] is Text ==> (seg_span(segs, i).0 < start < seg_span(segs, i).0 + byte_len(seg_text(segs[i])) ==> on_boundary(seg_text(segs[i]), start - seg_span(segs, i).0)),
        segs[i] is Text ==> (seg_span(segs, i).0 < end < seg_span(segs, i).0 + byte_len(seg_text(segs[i])) ==> on_boundary(seg_text(segs[i]), end - seg_span(segs, i).0)),
{
    lemma_prefix_bytes(segs, i);
    lemma_prefix_bytes(segs, i + 1);
    assert(segs.take(i + 1).drop_last() =~= segs.take(i));
}

impl QueryDocument {
    /// Puts `segment` in place of the text in `range`.
    ///
    /// Segments wholly inside the range are dropped; text segments that it cuts
    /// through keep their parts outside it.
    #[verifier::rlimit(40)]
    pub fn replace_range(&mut self, range: Range<usize>, segment: Segment)
        requires
            range.start <= range.end,
            cuts_between_chars(old(self)@, range.start as int, range.end as int),
            byte_len(doc_text(old(self)@)) + byte_len(seg_text(segment@)) <= usize::MAX,
        ensures
            final(self)@ == tidied(replaced(old(self)@, range.start as int, range.end as int, segment@)),
    {
        proof {
            use_type_invariant(&*self);
        }
        let ghost segs = self@;
        let start = range.start;
        let end = range.end;
        let spans = self.spans();
        let mut next: Vec<Segment> = Vec::new();
        let mut placed = false;
        let mut i: usize = 0;
        assert(segs.take(0) =~= Seq::<SegmentView>::empty());
        assert(segs_view(next@) =~= Seq::<SegmentView>::empty());
        while i < self.segments.len()
            invariant
                segs == segs_view(self.segments@),
                segs == old(self)@,
                byte_len(doc_text(segs)) <= usize::MAX,
                cuts_between_chars(segs, start as int, end as int),
                spans@.len() == segs.len(),
                forall|k: int| 0 <= k < spans@.len() ==> (#[trigger] spans@[k]).start == seg_span(segs, k).0 && spans@[k].end == seg_span(segs, k).1,
                i <= segs.len(),
                replace_scan(segs.take(i as int), start as int, end as int, segment@) == (segs_view(next@), placed),
            decreases segs.len() - i,
        {
            proof {
                assert(segs.take(i + 1).drop_last() =~= segs.take(i as int));
                assert(segs.take(i + 1).last() == segs[i as int]);
                assert(segs[i as int] == self.segments@[i as int]@);
                lemma_cut_segment(segs, i as int, start as int, end as int);
            }
            let s = spans[i].start;
            placed = push_replaced(&mut next, placed, &self.segments[i], s, start, end, &segment);
            i = i + 1;
        }
        assert(segs.take(segs.len() as int) =~= segs);
        if !placed {
            let ghost before = next@;
            next.push(segment);
            assert(segs_view(next@) =~= segs_view(before).push(segment@));
        }
        proof {
            lemma_replaced_bytes(segs, start as int, end as int, segment@);
        }
        let tidied_segments = tidy(next);
        self.segments = tidied_segments;
    }
}

/// The candidates whose target still exists, in order.
pub open spec fn existing_refs(
    cands: Seq<ReferenceView>,
    ps: Seq<ProjectEntry>,
    ls: Seq<ListEntry>,
    us: Seq<UserEntry>,
) -> Seq<ReferenceView>
    decreases cands.len(),
{
    if cands.len() == 0 {
        cands
    } else {
        let rest = existing_refs(cands.drop_last(), ps, ls, us);
        if target_exists(ps, ls, us, cands.last()) {
            rest.push(cands.last())
        } else {
            rest
        }
    }
}

/// A confirmed token brought up to date: broken when its target is gone,
/// rewritten from its target when its text no longer names it (or, with
/// `relocalize`, when it is a keyword or has a kind prefix); an ambiguous
/// token keeps the candidates that still exist, and is bound once one is left.
pub open spec fn refreshed_segment(
    s: SegmentView,
    ps: Seq<ProjectEntry>,
    ls: Seq<ListEntry>,
    us: Seq<UserEntry>,
    lang: Lang,
    relocalize: bool,
) -> SegmentView {
    match s {
        SegmentView::Bound(text, r) => if !target_exists(ps, ls, us, r) {
            SegmentView::Broken(text)
        } else {
            let explicit = read_term_of(text) matches RawTermView::At(w) && w.kind is Some;
            let keyword = ref_kind(r) == RefKind::Due || ref_kind(r) == RefKind::Status;
            let stale = !(read_term_of(text) matches RawTermView::At(w) && resolved(ps, ls, us, w).contains(r));
            if (stale || (relocalize && (keyword || explicit))) && rendered(ps, ls, us, r, lang, explicit) is Some {
                SegmentView::Bound(rendered(ps, ls, us, r, lang, explicit)->0, r)
            } else {
                s
            }
        },
        SegmentView::Ambiguous(text, cands) => {
            let kept = existing_refs(cands, ps, ls, us);
            if kept.len() == 0 {
                SegmentView::Broken(text)
            } else if kept.len() == 1 {
                SegmentView::Bound(text, kept[0])
            } else {
                SegmentView::Ambiguous(text, kept)
            }
        },
        other => other,
    }
}

pub open spec fn refreshed_all(
    segs: Seq<SegmentView>,
    ps: Seq<ProjectEntry>,
    ls: Seq<ListEntry>,
    us: Seq<UserEntry>,
    lang: Lang,
    relocalize: bool,
) -> Seq<SegmentView> {
    segs.map_values(|s: SegmentView| refreshed_segment(s, ps, ls, us, lang, relocalize))
}

/// A bound token's text written in `lang` without a kind prefix.
pub open spec fn relabelled(
    s: SegmentView,
    ps: Seq<ProjectEntry>,
    ls: Seq<ListEntry>,
    us: Seq<UserEntry>,
    lang: Lang,
) -> SegmentView {
    match s {
        SegmentView::Bound(text, r) => match rendered(ps, ls, us, r, lang, false) {
            Some(t) => SegmentView::Bound(t, r),
            None => s,
        },
        other => other,
    }
}

/// What [`QueryDocument::from_canonical`] builds, before the last tidying.
pub open spec fn restored_segments(
    canonical: Seq<char>,
    ps: Seq<ProjectEntry>,
    ls: Seq<ListEntry>,
    us: Seq<UserEntry>,
    lang: Lang,
) -> Seq<SegmentView> {
    let committed = tidied(commit_all(tidied(seq![SegmentView::Text(canonical)]), None, ps, ls, us).0);
    committed.map_values(|s: SegmentView| relabelled(s, ps, ls, us, lang))
}

fn keep_existing(cands: &Vec<Reference>, index: &NameIndex) -> (r: Vec<Reference>)
    ensures
        refs_view(r@) == existing_refs(refs_view(cands@), index.project_entries(), index.list_entries(), index.user_entries()),
{
    let ghost all = refs_view(cands@);
    let mut out: Vec<Reference> = Vec::new();
    let mut i: usize = 0;
    while i < cands.len()
        invariant
            all == refs_view(cands@),
            i <= cands@.len(),
            refs_view(out@) == existing_refs(all.take(i as int), index.project_entries(), index.list_entries(), index.user_entries()),
        decreases cands@.len() - i,
    {
        proof {
            assert(all.take(i + 1).drop_last() =~= all.take(i as int));
            assert(all[i as int] == cands@[i as int]@);
        }
        let ghost before = out@;
        if index.still_exists(&cands[i]) {
            out.push(cands[i].clone());
            assert(refs_view(out@) =~= refs_view(before).push(all[i as int]));
        }
        i = i + 1;
    }
    assert(all.take(cands@.len() as int) =~= all);
    out
}

fn refresh_segment(segment: &Segment, index: &NameIndex, lang: Lang, relocalize: bool) -> (r: Segment)
    ensures
        r@ == refreshed_segment(segment@, index.project_entries(), index.list_entries(), index.user_entries(), lang, relocalize),
{
    match segment {
        Segment::Bound { text, reference } => {
            if !index.still_exists(reference) {
                return Segment::Broken(text.clone());
            }
            let explicit = is_explicit(text.as_str());
            let kind = reference.kind();
            let keyword = kind == RefKind::Due || kind == RefKind::Status;
            let stale = !index.describes(text.as_str(), reference);
            if stale || (relocalize && (keyword || explicit)) {
                match index.render(reference, lang, explicit) {
                    Some(shown) => {
                        return Segment::Bound { text: shown, reference: reference.clone() };
                    },
                    None => {},
                }
            }
            segment.clone()
        },
        Segment::Ambiguous { text, candidates } => {
            let kept = keep_existing(candidates, index);
            if kept.len() == 0 {
                Segment::Broken(text.clone())
            } else if kept.len() == 1 {
                Segment::Bound { text: text.clone(), reference: kept[0].clone() }
            } else {
                Segment::Ambiguous { text: text.clone(), candidates: kept }
            }
        },
        other => other.clone(),
    }
}

impl QueryDocument {
    /// Brings confirmed tokens up to date with the loaded data.
    ///
    /// A token whose text no longer names its target (a rename) is rewritten
    /// from the target; one whose target is gone becomes broken. With
    /// `relocalize`, keyword tokens are rewritten in `lang` whatever they say.
    pub fn refresh(&mut self, index: &NameIndex, lang: Lang, relocalize: bool)
        requires
            byte_len(doc_text(refreshed_all(old(self)@, index.project_entries(), index.list_entries(), index.user_entries(), lang, relocalize))) <= usize::MAX,
        ensures
            final(self)@ == tidied(refreshed_all(old(self)@, index.project_entries(), index.list_entries(), index.user_entries(), lang, relocalize)),
    {
        let ghost segs = self@;
        let mut next: Vec<Segment> = Vec::new();
        let mut i: usize = 0;
        while i < self.segments.len()
            invariant
                segs == segs_view(self.segments@),
                segs == old(self)@,
                i <= segs.len(),
                next@.len() == i,
                forall|k: int| 0 <= k < i ==> (#[trigger] next@[k])@ == refreshed_segment(segs[k], index.project_entries(), index.list_entries(), index.user_entries(), lang, relocalize),
            decreases segs.len() - i,
        {
            assert(segs[i as int] == self.segments@[i as int]@);
            next.push(refresh_segment(&self.segments[i], index, lang, relocalize));
            i = i + 1;
        }
        assert(segs_view(next@) =~= refreshed_all(segs, index.project_entries(), index.list_entries(), index.user_entries(), lang, relocalize));
        let tidied_segments = tidy(next);
        self.segments = tidied_segments;
    }

    /// Rebuilds a document from [`Self::canonical`] output.
    pub fn from_canonical(canonical: &str, index: &NameIndex, lang: Lang) -> (r: Self)
        requires
            byte_len(doc_text(restored_segments(canonical@, index.project_entries(), index.list_entries(), index.user_entries(), lang))) <= usize::MAX,
        ensures
            r@ == tidied(restored_segments(canonical@, index.project_entries(), index.list_entries(), index.user_entries(), lang)),
    {
        let mut document = Self::from_text(canonical);
        document.commit(index, None);
        let ghost segs = document@;
        let mut next: Vec<Segment> = Vec::new();
        let mut i: usize = 0;
        while i < document.segments.len()
            invariant
                segs == segs_view(document.segments@),
                i <= segs.len(),
                next@.len() == i,
                forall|k: int| 0 <= k < i ==> (#[trigger] next@[k])@ == relabelled(segs[k], index.project_entries(), index.list_entries(), index.user_entries(), lang),
            decreases segs.len() - i,
        {
            assert(segs[i as int] == document.segments@[i as int]@);
            let segment = &document.segments[i];
            let relabelled_segment = match segment {
                Segment::Bound { reference, .. } => match index.render(reference, lang, false) {
                    Some(shown) => Segment::Bound { text: shown, reference: reference.clone() },
                    None => segment.clone(),
                },
                other => other.clone(),
            };
            next.push(relabelled_segment);
            i = i + 1;
        }
        assert(segs_view(next@) =~= restored_segments(canonical@, index.project_entries(), index.list_entries(), index.user_entries(), lang));
        Self::from_segments(next)
    }
}

impl Default for QueryDocument {
    fn default() -> (r: Self)
        ensures
            r@.len() == 0,
    {
        let r = QueryDocument { segments: Vec::new() };
        assert(segs_view(r.segments@) =~= Seq::<SegmentView>::empty());
        r
    }
}

impl Clone for QueryDocument {
    fn clone(&self) -> (r: Self)
        ensures
            r@ == self@,
    {
        proof {
            use_type_invariant(self);
        }
        let mut out: Vec<Segment> = Vec::new();
        let mut i: usize = 0;
        while i < self.segments.len()
            invariant
                i <= self.segments@.len(),
                out@.len() == i,
                forall|k: int| 0 <= k < i ==> (#[trigger] out@[k])@ == self.segments@[k]@,
            decreases self.segments@.len() - i,
        {
            out.push(self.segments[i].clone());
            i = i + 1;
        }
        assert(segs_view(out@) =~= segs_view(self.segments@));
        QueryDocument { segments: out }
    }
}


/// A run of segments is blank exactly when its whole text trims to nothing.
pub proof fn law_blank_means_the_text_trims_to_nothing(segs: Seq<SegmentView>)
    ensures
        blank(segs) <==> trimmed(doc_text(segs)).len() == 0,
    decreases segs.len(),
{
    crate::text::lemma_trimmed_empty(doc_text(segs));
    if segs.len() > 0 {
        let rest = segs.drop_last();
        law_blank_means_the_text_trims_to_nothing(rest);
        crate::text::lemma_trimmed_empty(doc_text(rest));
        crate::text::lemma_trimmed_empty(seg_text(segs.last()));
        crate::text::lemma_white_space_concat(doc_text(rest), seg_text(segs.last()));
        if blank(segs) {
            assert(blank(rest)) by {
                assert forall|i: int| 0 <= i < rest.len() implies trimmed(seg_text(#[trigger] rest[i])).len() == 0 by {
                    assert(rest[i] == segs[i]);
                }
            }
            assert(trimmed(seg_text(segs[segs.len() - 1])).len() == 0);
        }
        if blank(rest) && trimmed(seg_text(segs.last())).len() == 0 {
            assert forall|i: int| 0 <= i < segs.len() implies trimmed(seg_text(#[trigger] segs[i])).len() == 0 by {
                if i < segs.len() - 1 {
                    assert(rest[i] == segs[i]);
                }
            }
        }
    }
}


/// No segment has empty text.
pub open spec fn no_empty_segments(m: Seq<SegmentView>) -> bool {
    forall|k: int| 0 <= k < m.len() ==> seg_text(#[trigger] m[k]).len() > 0
}

/// No two neighbouring segments are both plain text.
pub open spec fn texts_kept_apart(m: Seq<SegmentView>) -> bool {
    forall|k: int| 0 <= k && k + 1 < m.len() ==> !(#[trigger] m[k] is Text && m[k + 1] is Text)
}

/// Every segment that is not plain text stands apart from its neighbours.
pub open spec fn tokens_stand_apart(m: Seq<SegmentView>) -> bool {
    forall|k: int| 0 <= k < m.len() && !(#[trigger] m[k] is Text) ==> stands_apart(m, k)
}

proof fn lemma_merged_shape(s: Seq<SegmentView>)
    requires
        no_empty_segments(s),
        tokens_stand_apart(s),
    ensures
        no_empty_segments(merged(s)),
        texts_kept_apart(merged(s)),
        tokens_stand_apart(merged(s)),
        s.len() > 0 ==> merged(s).len() > 0,
        s.len() > 0 && !(s.last() is Text) ==> merged(s).last() == s.last(),
        s.len() > 0 && s.last() is Text ==> merged(s).last() is Text
            && seg_text(merged(s).last()).last() == seg_text(s.last()).last(),
    decreases s.len(),
{
    if s.len() > 0 {
        let t = s.drop_last();
        let x = s.last();
        let n = s.len() - 1;
        assert(no_empty_segments(t)) by {
            assert forall|k: int| 0 <= k < t.len() implies seg_text(#[trigger] t[k]).len() > 0 by {
                assert(t[k] == s[k]);
            }
        }
        assert(tokens_stand_apart(t)) by {
            assert forall|k: int| 0 <= k < t.len() && !(#[trigger] t[k] is Text) implies stands_apart(t, k) by {
                assert(t[k] == s[k]);
                assert(stands_apart(s, k));
                if k > 0 {
                    assert(t[k - 1] == s[k - 1]);
                }
                if k + 1 < t.len() {
                    assert(t[k + 1] == s[k + 1]);
                }
            }
        }
        lemma_merged_shape(t);
        let r = merged(t);
        let m = merged(s);
        assert(seg_text(x).len() > 0);
        if x is Text && r.len() > 0 && r.last() is Text {
            let joined = SegmentView::Text(seg_text(r.last()) + seg_text(x));
            assert(m == r.drop_last().push(joined));
            assert(seg_text(joined)[0] == seg_text(r.last())[0]);
            assert(seg_text(joined).last() == seg_text(x).last());
            assert forall|k: int| 0 <= k < m.len() implies seg_text(#[trigger] m[k]).len() > 0 by {
                if k < m.len() - 1 {
                    assert(m[k] == r[k]);
                }
            }
            assert forall|k: int| 0 <= k && k + 1 < m.len() implies !(#[trigger] m[k] is Text && m[k + 1] is Text) by {
                assert(m[k] == r[k]);
                if k + 1 < m.len() - 1 {
                    assert(m[k + 1] == r[k + 1]);
                }
            }
            assert forall|k: int| 0 <= k < m.len() && !(#[trigger] m[k] is Text) implies stands_apart(m, k) by {
                assert(m[k] == r[k]);
                assert(stands_apart(r, k));
                if k > 0 {
                    assert(m[k - 1] == r[k - 1]);
                }
                if k + 1 < m.len() - 1 {
                    assert(m[k + 1] == r[k + 1]);
                }
            }
        } else {
            assert(m == r.push(x));
            if r.len() > 0 {
                // What stands last in `r` ends as `s[n - 1]` does.
                assert(t.last() == s[n - 1]);
                assert(seg_text(r.last()).last() == seg_text(s[n - 1]).last());
            }
            assert forall|k: int| 0 <= k < m.len() implies seg_text(#[trigger] m[k]).len() > 0 by {
                if k < r.len() {
                    assert(m[k] == r[k]);
                }
            }
            assert forall|k: int| 0 <= k && k + 1 < m.len() implies !(#[trigger] m[k] is Text && m[k + 1] is Text) by {
                assert(m[k] == r[k]);
                if k + 1 < r.len() {
                    assert(m[k + 1] == r[k + 1]);
                } else {
                    if x is Text {
                        assert(!(r.last() is Text));
                    }
                }
            }
            assert forall|k: int| 0 <= k < m.len() && !(#[trigger] m[k] is Text) implies stands_apart(m, k) by {
                if k < r.len() {
                    assert(m[k] == r[k]);
                    assert(stands_apart(r, k));
                    if k > 0 {
                        assert(m[k - 1] == r[k - 1]);
                    }
                    if k + 1 < r.len() {
                        assert(m[k + 1] == r[k + 1]);
                    } else {
                        // `r`'s last token is `s[n - 1]`, whose right neighbour in `s` is `x`.
                        assert(r.last() == t.last());
                        assert(!(s[n - 1] is Text));
                        assert(stands_apart(s, n - 1));
                    }
                } else {
                    assert(stands_apart(s, n));
                    if k > 0 {
                        assert(m[k - 1] == r.last());
                    }
                }
            }
        }
    }
}

/// Tidying leaves the text as it was, drops every empty segment, merges
/// neighbouring plain text, and keeps a bound or open token only where it
/// stands apart from its neighbours.
pub proof fn law_tidied_segments_are_tidy(segs: Seq<SegmentView>)
    ensures
        doc_text(tidied(segs)) == doc_text(segs),
        no_empty_segments(tidied(segs)),
        texts_kept_apart(tidied(segs)),
        tokens_stand_apart(tidied(segs)),
{
    lemma_tidied_text(segs);
    lemma_nonempty_text(segs);
    let ne = nonempty_segments(segs);
    let o = opened(ne);
    assert(no_empty_segments(o)) by {
        assert forall|k: int| 0 <= k < o.len() implies seg_text(#[trigger] o[k]).len() > 0 by {
            assert(seg_text(o[k]) == seg_text(ne[k]));
        }
    }
    assert(tokens_stand_apart(o)) by {
        assert forall|k: int| 0 <= k < o.len() && !(#[trigger] o[k] is Text) implies stands_apart(o, k) by {
            assert(stands_apart(ne, k));
            if k > 0 {
                assert(seg_text(o[k - 1]) == seg_text(ne[k - 1]));
            }
            if k + 1 < o.len() {
                assert(seg_text(o[k + 1]) == seg_text(ne[k + 1]));
            }
        }
    }
    lemma_merged_shape(o);
}

} // verus!
