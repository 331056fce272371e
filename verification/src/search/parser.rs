//! Builds the condition tree of a [`QueryDocument`].
//!
//! ```text
//! query    = [ or_expr ] ;
//! or_expr  = and_expr , { ( "|" | "OR" ) , and_expr } ;
//! and_expr = unary , { [ "AND" ] , unary } ;
//! unary    = ( "-" | "NOT" ) , unary | primary ;
//! primary  = "(" , or_expr , [ ")" ] | term ;
//! ```
//!
//! The parser never fails. The text is usually half typed, so a missing `)` is
//! assumed at the end and stray operators are skipped; each repair is reported
//! so the search box can say that part of the query was ignored.

use vstd::prelude::*;
use std::ops::Range;
use crate::search::document::{copy_references, lemma_prefix_bytes, seg_span, seg_text, QueryDocument, Segment, SegmentView};
use crate::search::lexer::{byte_offsets, char_tokens, char_tokens_of, read_term, read_term_of, tokens_in_bounds, AtWord, AtWordView, CharToken, strings_view, RawTerm, RawTermView, TokenKind};
use crate::search::normalize::{is_word_break, spec_is_word_break, spec_syntax_char, syntax_char};
use crate::search::resolve::{refs_view, Reference, ReferenceView};
use crate::search::vocabulary::TextField;
use crate::text::{byte_len, chars_of, lemma_byte_len_take, string_of_range};

verus! {

/// One condition before any name has been looked up.
#[derive(Debug, PartialEq, Eq)]
pub enum Term {
    Text(String),
    Tag(String),
    Field(TextField, String),
    /// An `@` word still in the text: resolved by name when evaluated.
    Name(AtWord),
    /// A confirmed token.
    Ref(Reference),
    /// An ambiguous token: any of the candidates.
    AnyOf(Vec<Reference>),
    Ignore,
}

/// The value of a [`Term`].
pub enum TermView {
    Text(Seq<char>),
    Tag(Seq<char>),
    Field(TextField, Seq<char>),
    Name(AtWordView),
    Ref(ReferenceView),
    AnyOf(Seq<ReferenceView>),
    Ignore,
}

impl View for Term {
    type V = TermView;

    open spec fn view(&self) -> TermView {
        match self {
            Term::Text(s) => TermView::Text(s@),
            Term::Tag(s) => TermView::Tag(s@),
            Term::Field(f, s) => TermView::Field(*f, s@),
            Term::Name(w) => TermView::Name(w@),
            Term::Ref(r) => TermView::Ref(r@),
            Term::AnyOf(c) => TermView::AnyOf(refs_view(c@)),
            Term::Ignore => TermView::Ignore,
        }
    }
}

fn copy_strings(v: &Vec<String>) -> (r: Vec<String>)
    ensures
        strings_view(r@) == strings_view(v@),
{
    let mut out: Vec<String> = Vec::new();
    let mut i: usize = 0;
    while i < v.len()
        invariant
            i <= v@.len(),
            out@.len() == i,
            forall|k: int| 0 <= k < i ==> (#[trigger] out@[k])@ == v@[k]@,
        decreases v@.len() - i,
    {
        out.push(v[i].clone());
        i = i + 1;
    }
    assert(strings_view(out@) =~= strings_view(v@));
    out
}

fn copy_word(w: &AtWord) -> (r: AtWord)
    ensures
        r@ == w@,
{
    AtWord {
        kind: w.kind,
        parts: copy_strings(&w.parts),
        quoted: w.quoted,
        wildcard: w.wildcard,
        id: match &w.id {
            Some(id) => Some(id.clone()),
            None => None,
        },
    }
}

fn copy_term(t: &Term) -> (r: Term)
    ensures
        r@ == t@,
{
    match t {
        Term::Text(s) => Term::Text(s.clone()),
        Term::Tag(s) => Term::Tag(s.clone()),
        Term::Field(f, s) => Term::Field(*f, s.clone()),
        Term::Name(w) => Term::Name(copy_word(w)),
        Term::Ref(r) => Term::Ref(r.clone()),
        Term::AnyOf(c) => Term::AnyOf(copy_references(c)),
        Term::Ignore => Term::Ignore,
    }
}

impl Clone for Term {
    fn clone(&self) -> (r: Self)
        ensures
            r@ == self@,
    {
        copy_term(self)
    }
}

/// The term a word of text stands for.
pub open spec fn term_of_raw(raw: RawTermView) -> TermView {
    match raw {
        RawTermView::Text(v) => TermView::Text(v),
        RawTermView::Tag(v) => TermView::Tag(v),
        RawTermView::Field(f, v) => TermView::Field(f, v),
        RawTermView::At(w) => TermView::Name(w),
        RawTermView::Ignore => TermView::Ignore,
    }
}

fn term_from_raw(raw: RawTerm) -> (r: Term)
    ensures
        r@ == term_of_raw(raw@),
{
    match raw {
        RawTerm::Text(value) => Term::Text(value),
        RawTerm::Tag(value) => Term::Tag(value),
        RawTerm::Field(field, value) => Term::Field(field, value),
        RawTerm::At(word) => Term::Name(word),
        RawTerm::Ignore => Term::Ignore,
    }
}

#[derive(Debug, PartialEq, Eq)]
pub struct TermNode {
    pub term: Term,
    /// Byte range in the document text.
    pub span: Range<usize>,
    /// The segment the term was read from, reused when the tree is written back.
    pub source: Segment,
}

impl Clone for TermNode {
    fn clone(&self) -> (r: Self)
        ensures
            r@ == self@,
    {
        copy_node(self)
    }
}

/// The value of a [`TermNode`].
pub struct TermNodeView {
    pub term: TermView,
    pub start: int,
    pub end: int,
    pub source: SegmentView,
}

impl View for TermNode {
    type V = TermNodeView;

    open spec fn view(&self) -> TermNodeView {
        TermNodeView {
            term: self.term@,
            start: self.span.start as int,
            end: self.span.end as int,
            source: self.source@,
        }
    }
}

#[derive(Debug, PartialEq, Eq)]
pub enum Expr {
    And(Vec<Expr>),
    Or(Vec<Expr>),
    Not(Box<Expr>),
    Term(TermNode),
}

/// The value of an [`Expr`].
pub enum ExprView {
    And(Seq<ExprView>),
    Or(Seq<ExprView>),
    Not(Box<ExprView>),
    Term(TermNodeView),
}

pub open spec fn expr_view(e: Expr) -> ExprView
    decreases e,
{
    match e {
        Expr::And(items) => ExprView::And(exprs_view(items@)),
        Expr::Or(items) => ExprView::Or(exprs_view(items@)),
        Expr::Not(inner) => ExprView::Not(Box::new(expr_view(*inner))),
        Expr::Term(node) => ExprView::Term(node@),
    }
}

pub open spec fn exprs_view(s: Seq<Expr>) -> Seq<ExprView>
    decreases s,
{
    if s.len() == 0 {
        Seq::empty()
    } else {
        exprs_view(s.subrange(0, s.len() - 1)).push(expr_view(s[s.len() - 1]))
    }
}

impl View for Expr {
    type V = ExprView;

    open spec fn view(&self) -> ExprView {
        expr_view(*self)
    }
}

pub open spec fn opt_expr_view(e: Option<Expr>) -> Option<ExprView> {
    match e {
        Some(x) => Some(x@),
        None => None,
    }
}

pub proof fn lemma_exprs_view_push(s: Seq<Expr>, x: Expr)
    ensures
        exprs_view(s.push(x)) == exprs_view(s).push(x@),
        exprs_view(s).len() == s.len(),
    decreases s.len(),
{
    assert(s.push(x).subrange(0, s.len() as int) =~= s);
    if s.len() > 0 {
        lemma_exprs_view_push(s.subrange(0, s.len() - 1), s[s.len() - 1]);
        assert(s.subrange(0, s.len() - 1).push(s[s.len() - 1]) =~= s);
    }
}

/// A copy of `e`, down to its leaves.
pub fn copy_expr(e: &Expr) -> (r: Expr)
    ensures
        r@ == e@,
    decreases e,
{
    match e {
        Expr::And(items) => Expr::And(copy_exprs(items)),
        Expr::Or(items) => Expr::Or(copy_exprs(items)),
        Expr::Not(inner) => Expr::Not(Box::new(copy_expr(inner))),
        Expr::Term(node) => Expr::Term(copy_node(node)),
    }
}

fn copy_exprs(items: &Vec<Expr>) -> (r: Vec<Expr>)
    ensures
        exprs_view(r@) == exprs_view(items@),
    decreases items,
{
    let mut out: Vec<Expr> = Vec::new();
    let mut i: usize = 0;
    while i < items.len()
        invariant
            i <= items@.len(),
            exprs_view(out@) == exprs_view(items@.subrange(0, i as int)),
        decreases items@.len() - i,
    {
        proof {
            assert(decreases_to!(items => items@[i as int]));
            lemma_exprs_view_push(out@, items@[i as int]);
        }
        let x = copy_expr(&items[i]);
        proof {
            lemma_exprs_view_push(out@, x);
            lemma_exprs_view_push(items@.subrange(0, i as int), items@[i as int]);
            assert(items@.subrange(0, i as int).push(items@[i as int]) =~= items@.subrange(0, i + 1));
        }
        out.push(x);
        i = i + 1;
    }
    assert(items@.subrange(0, items@.len() as int) =~= items@);
    out
}

fn copy_node(node: &TermNode) -> (r: TermNode)
    ensures
        r@ == node@,
{
    TermNode {
        term: copy_term(&node.term),
        span: node.span.start..node.span.end,
        source: node.source.clone(),
    }
}

impl Clone for Expr {
    fn clone(&self) -> (r: Self)
        ensures
            r@ == self@,
    {
        copy_expr(self)
    }
}

pub proof fn lemma_exprs_view_index(s: Seq<Expr>)
    ensures
        exprs_view(s).len() == s.len(),
        forall|i: int| 0 <= i < s.len() ==> #[trigger] exprs_view(s)[i] == s[i]@,
    decreases s.len(),
{
    if s.len() > 0 {
        let front = s.subrange(0, s.len() - 1);
        lemma_exprs_view_index(front);
        assert forall|i: int| 0 <= i < s.len() implies #[trigger] exprs_view(s)[i] == s[i]@ by {
            if i < s.len() - 1 {
                assert(exprs_view(s)[i] == exprs_view(front)[i]);
                assert(front[i] == s[i]);
            }
        }
    }
}

impl Expr {
    /// Binding strength, for writing the tree back with the fewest parentheses.
    pub fn precedence(&self) -> (r: u8)
        ensures
            r == expr_precedence(self@),
    {
        match self {
            Expr::Or(_) => 1,
            Expr::And(_) => 2,
            Expr::Not(_) => 3,
            Expr::Term(_) => 4,
        }
    }
}

pub open spec fn expr_precedence(e: ExprView) -> u8 {
    match e {
        ExprView::Or(_) => 1,
        ExprView::And(_) => 2,
        ExprView::Not(_) => 3,
        ExprView::Term(_) => 4,
    }
}

/// A part of the query that was skipped while parsing.
#[derive(Debug, Clone, Copy, PartialEq, Eq, Structural)]
pub enum SyntaxIssue {
    /// A `)` without a matching `(`.
    StrayParen,
    /// An `|` with nothing on one side.
    StrayOr,
}

#[derive(Debug, Clone, PartialEq, Eq)]
pub struct Parsed {
    pub expr: Option<Expr>,
    pub issues: Vec<SyntaxIssue>,
}

impl Default for Parsed {
    fn default() -> (r: Self)
        ensures
            r.expr is None,
            r.issues@.len() == 0,
    {
        Parsed { expr: None, issues: Vec::new() }
    }
}


/// A token of the whole document: a token of a text segment, or a whole
/// confirmed, ambiguous or broken token.
struct DocToken {
    kind: TokenKind,
    span: Range<usize>,
    term: Option<(Term, Segment)>,
}

/// The value of a document token.
pub struct DocTok {
    pub kind: TokenKind,
    pub start: int,
    pub end: int,
    pub term: Option<(TermView, SegmentView)>,
}

impl View for DocToken {
    type V = DocTok;

    closed spec fn view(&self) -> DocTok {
        DocTok {
            kind: self.kind,
            start: self.span.start as int,
            end: self.span.end as int,
            term: match self.term {
                Some((t, s)) => Some((t@, s@)),
                None => None,
            },
        }
    }
}

/// The token of a text segment starting at byte `base`, for the char token `tok`
/// of its text `t`.
pub open spec fn text_token(t: Seq<char>, base: int, tok: CharToken) -> DocTok {
    let raw = t.subrange(tok.start as int, tok.end as int);
    DocTok {
        kind: tok.kind,
        start: base + byte_len(t.take(tok.start as int)),
        end: base + byte_len(t.take(tok.end as int)),
        term: if tok.kind == TokenKind::Word {
            Some((term_of_raw(read_term_of(raw)), SegmentView::Text(raw)))
        } else {
            None
        },
    }
}

/// Whether `t` ends in a `-` that starts a word rather than ending one.
pub open spec fn ends_with_prefix_minus(t: Seq<char>) -> bool {
    &&& t.len() > 0
    &&& spec_syntax_char(t.last()) == '-'
    &&& (t.len() == 1 || spec_is_word_break(t[t.len() - 2]) || spec_syntax_char(t[t.len() - 2])
        == '-')
}

/// Whether the segment after segment `i` is a token rather than text.
pub open spec fn next_is_token(segs: Seq<SegmentView>, i: int) -> bool {
    i + 1 < segs.len() && !(segs[i + 1] is Text)
}

/// The tokens that segment `i` contributes.
///
/// A text segment gives the tokens of its text. One that ends in a lone `-`
/// right before a token (`-@仕事` with `@仕事` confirmed) also gives that `-`
/// as a NOT: the lexer saw it end its text and took it for a minus being typed.
pub open spec fn segment_tokens(segs: Seq<SegmentView>, i: int) -> Seq<DocTok> {
    let (start, end) = seg_span(segs, i);
    let whole = |term: TermView| seq![DocTok { kind: TokenKind::Word, start, end, term: Some((term, segs[i])) }];
    match segs[i] {
        SegmentView::Text(t) => {
            let words = char_tokens_of(t).map_values(|tok: CharToken| text_token(t, start, tok));
            if next_is_token(segs, i) && ends_with_prefix_minus(t) {
                words.push(DocTok { kind: TokenKind::Not, start: end - 1, end, term: None })
            } else {
                words
            }
        },
        SegmentView::Bound(_, r) => whole(TermView::Ref(r)),
        SegmentView::Ambiguous(_, c) => whole(TermView::AnyOf(c)),
        SegmentView::Broken(_) => whole(TermView::Ignore),
    }
}

/// The tokens of the first `k` segments.
pub open spec fn tokens_upto(segs: Seq<SegmentView>, k: int) -> Seq<DocTok>
    decreases k,
{
    if k <= 0 {
        Seq::empty()
    } else {
        tokens_upto(segs, k - 1) + segment_tokens(segs, k - 1)
    }
}

/// The tokens of a document.
pub open spec fn doc_tokens(segs: Seq<SegmentView>) -> Seq<DocTok> {
    tokens_upto(segs, segs.len() as int)
}

fn ends_with_minus_before_word(chars: &Vec<char>) -> (r: bool)
    ensures
        r == ends_with_prefix_minus(chars@),
{
    let n = chars.len();
    if n == 0 || syntax_char(chars[n - 1]) != '-' {
        return false;
    }
    if n == 1 {
        return true;
    }
    let before = chars[n - 2];
    is_word_break(before) || syntax_char(before) == '-'
}

fn whole_token(span: Range<usize>, term: Term, segment: &Segment) -> (r: DocToken)
    ensures
        r@ == (DocTok { kind: TokenKind::Word, start: span.start as int, end: span.end as int, term: Some((term@, segment@)) }),
{
    DocToken { kind: TokenKind::Word, span, term: Some((term, segment.clone())) }
}

/// The tokens of a text segment spanning `start..end`, appended to `out`.
fn push_text_tokens(out: &mut Vec<DocToken>, text: &str, start: usize, end: usize)
    requires
        start + byte_len(text@) == end,
    ensures
        final(out)@.len() == old(out)@.len() + char_tokens_of(text@).len(),
        forall|k: int| 0 <= k < old(out)@.len() ==> (#[trigger] final(out)@[k])@ == old(out)@[k]@,
        forall|k: int|
            0 <= k < char_tokens_of(text@).len() ==> (#[trigger] final(out)@[old(out)@.len() + k])@
                == text_token(text@, start as int, char_tokens_of(text@)[k]),
{
    let chars = chars_of(text);
    let toks = char_tokens(&chars);
    let offsets = byte_offsets(&chars);
    let ghost before = out@;
    let mut k: usize = 0;
    while k < toks.len()
        invariant
            chars@ == text@,
            toks@ == char_tokens_of(text@),
            tokens_in_bounds(toks@, 0, chars@.len() as int),
            offsets@.len() == chars@.len() + 1,
            forall|i: int| 0 <= i <= chars@.len() ==> #[trigger] offsets@[i] == byte_len(chars@.take(i)),
            start + byte_len(text@) == end,
            k <= toks@.len(),
            out@.len() == before.len() + k,
            forall|j: int| 0 <= j < before.len() ==> (#[trigger] out@[j])@ == before[j]@,
            forall|j: int|
                0 <= j < k ==> (#[trigger] out@[before.len() + j])@ == text_token(text@, start as int, toks@[j]),
        decreases toks@.len() - k,
    {
        let tok = toks[k];
        assert(0 <= tok.start < tok.end <= chars@.len());
        proof {
            lemma_byte_len_take(chars@, tok.start as int, tok.end as int);
        }
        let from = start + offsets[tok.start];
        let to = start + offsets[tok.end];
        let term = if tok.kind == TokenKind::Word {
            let raw = string_of_range(chars.as_slice(), tok.start, tok.end);
            let read = read_term(raw.as_str());
            Some((term_from_raw(read), Segment::Text(raw)))
        } else {
            None
        };
        let ghost prev = out@;
        out.push(DocToken { kind: tok.kind, span: from..to, term });
        proof {
            assert forall|j: int| 0 <= j < before.len() implies (#[trigger] out@[j])@ == before[j]@ by {
                assert(out@[j] == prev[j]);
            }
            assert forall|j: int| 0 <= j < k + 1 implies (#[trigger] out@[before.len() + j])@
                == text_token(text@, start as int, toks@[j]) by {
                if j < k {
                    assert(out@[before.len() + j] == prev[before.len() + j]);
                }
            }
        }
        k = k + 1;
    }
}

/// The tokens of `document`, in order.
fn document_tokens(document: &QueryDocument) -> (r: Vec<DocToken>)
    ensures
        r@.len() == doc_tokens(document@).len(),
        forall|k: int| 0 <= k < r@.len() ==> (#[trigger] r@[k])@ == doc_tokens(document@)[k],
{
    let ghost segs = document@;
    let mut tokens: Vec<DocToken> = Vec::new();
    let segments = document.segments();
    let spans = document.spans();
    let mut i: usize = 0;
    while i < segments.len()
        invariant
            segs == document@,
            crate::search::document::segs_view(segments@) == segs,
            spans@.len() == segs.len(),
            forall|j: int|
                0 <= j < spans@.len() ==> (#[trigger] spans@[j]).start == seg_span(segs, j).0
                    && spans@[j].end == seg_span(segs, j).1,
            i <= segs.len(),
            tokens@.len() == tokens_upto(segs, i as int).len(),
            forall|k: int| 0 <= k < tokens@.len() ==> (#[trigger] tokens@[k])@ == tokens_upto(segs, i as int)[k],
        decreases segs.len() - i,
    {
        let ghost prev = tokens@;
        let ghost added = segment_tokens(segs, i as int);
        assert(segs[i as int] == segments@[i as int]@);
        let start = spans[i].start;
        let end = spans[i].end;
        proof {
            lemma_prefix_bytes(segs, i as int);
            lemma_prefix_bytes(segs, i + 1);
            assert(end == start + byte_len(seg_text(segs[i as int])));
        }
        let segment = &segments[i];
        match segment {
            Segment::Text(text) => {
                push_text_tokens(&mut tokens, text.as_str(), start, end);
                let ghost words = char_tokens_of(text@).map_values(|tok: CharToken| text_token(text@, start as int, tok));
                let ghost mid = tokens@;
                let next_is = i + 1 < segments.len() && !matches!(segments[i + 1], Segment::Text(_));
                proof {
                    if i + 1 < segments.len() {
                        assert(segs[i + 1] == segments@[i + 1]@);
                    }
                }
                let chars = chars_of(text.as_str());
                let minus = next_is && ends_with_minus_before_word(&chars);
                if minus {
                    proof {
                        crate::text::lemma_byte_len_at_least_len(text@);
                    }
                    tokens.push(DocToken { kind: TokenKind::Not, span: end - 1..end, term: None });
                }
                proof {
                    assert(added =~= if minus {
                        words.push(DocTok { kind: TokenKind::Not, start: end - 1, end: end as int, term: None })
                    } else {
                        words
                    });
                    assert forall|k: int| 0 <= k < mid.len() implies #[trigger] tokens@[k] == mid[k] by {}
                }
            },
            Segment::Bound { reference, .. } => {
                tokens.push(whole_token(start..end, Term::Ref(reference.clone()), segment));
            },
            Segment::Ambiguous { candidates, .. } => {
                tokens.push(whole_token(start..end, Term::AnyOf(copy_references(candidates)), segment));
            },
            Segment::Broken(_) => {
                tokens.push(whole_token(start..end, Term::Ignore, segment));
            },
        }
        proof {
            assert(tokens@.len() == prev.len() + added.len());
            assert(forall|k: int| 0 <= k < prev.len() ==> (#[trigger] tokens@[k])@ == prev[k]@);
            assert(forall|j: int| 0 <= j < added.len() ==> (#[trigger] tokens@[prev.len() + j])@ == added[j]);
            assert(tokens_upto(segs, i + 1) == tokens_upto(segs, i as int) + added);
            assert forall|k: int| 0 <= k < tokens@.len() implies (#[trigger] tokens@[k])@
                == tokens_upto(segs, i + 1)[k] by {
                if k >= prev.len() {
                    assert(tokens@[prev.len() + (k - prev.len())] == tokens@[k]);
                }
            }
        }
        i = i + 1;
    }
    tokens
}


/// Where a parse stopped: what it read, the next token, and the repairs so far.
pub struct ParseStep {
    pub expr: Option<ExprView>,
    pub pos: int,
    pub issues: Seq<SyntaxIssue>,
}

/// `items` as one condition: nothing, the single item, or their AND or OR.
pub open spec fn combined(items: Seq<ExprView>, or: bool) -> Option<ExprView> {
    if items.len() == 0 {
        None
    } else if items.len() == 1 {
        Some(items[0])
    } else if or {
        Some(ExprView::Or(items))
    } else {
        Some(ExprView::And(items))
    }
}

pub open spec fn push_some(items: Seq<ExprView>, e: Option<ExprView>) -> Seq<ExprView> {
    match e {
        Some(x) => items.push(x),
        None => items,
    }
}

/// Whether there is a token at `pos` and it has kind `kind`.
pub open spec fn kind_at(t: Seq<DocTok>, pos: int, kind: TokenKind) -> bool {
    0 <= pos < t.len() && t[pos].kind == kind
}

/// The rest of an OR list from `pos`, with `items` read so far; `expecting`
/// says that the last thing read was an `|` (or nothing).
pub open spec fn or_from(
    t: Seq<DocTok>,
    pos: int,
    depth: nat,
    items: Seq<ExprView>,
    expecting: bool,
    issues: Seq<SyntaxIssue>,
) -> ParseStep
    decreases t.len() - pos, 3int,
{
    let end = ParseStep {
        expr: combined(items, true),
        pos,
        issues: if expecting && items.len() > 0 {
            issues.push(SyntaxIssue::StrayOr)
        } else {
            issues
        },
    };
    if pos < 0 || pos >= t.len() {
        end
    } else if t[pos].kind == TokenKind::RParen {
        if depth > 0 {
            end
        } else {
            or_from(t, pos + 1, depth, items, expecting, issues.push(SyntaxIssue::StrayParen))
        }
    } else if t[pos].kind == TokenKind::Or {
        or_from(
            t,
            pos + 1,
            depth,
            items,
            true,
            if expecting {
                issues.push(SyntaxIssue::StrayOr)
            } else {
                issues
            },
        )
    } else {
        let r = and_from(t, pos, depth, Seq::empty(), issues);
        if pos < r.pos <= t.len() {
            or_from(t, r.pos, depth, push_some(items, r.expr), false, r.issues)
        } else {
            r
        }
    }
}

/// The rest of an AND list from `pos`, with `items` read so far.
pub open spec fn and_from(
    t: Seq<DocTok>,
    pos: int,
    depth: nat,
    items: Seq<ExprView>,
    issues: Seq<SyntaxIssue>,
) -> ParseStep
    decreases t.len() - pos, 2int,
{
    if pos < 0 || pos >= t.len() || t[pos].kind == TokenKind::Or || t[pos].kind
        == TokenKind::RParen {
        ParseStep { expr: combined(items, false), pos, issues }
    } else if t[pos].kind == TokenKind::And {
        and_from(t, pos + 1, depth, items, issues)
    } else {
        let r = unary_at(t, pos, depth, issues);
        if pos < r.pos <= t.len() {
            and_from(t, r.pos, depth, push_some(items, r.expr), r.issues)
        } else {
            r
        }
    }
}

/// A negation, a parenthesised group or a term at `pos`.
pub open spec fn unary_at(t: Seq<DocTok>, pos: int, depth: nat, issues: Seq<SyntaxIssue>) -> ParseStep
    decreases t.len() - pos, 1int,
{
    if pos < 0 || pos >= t.len() {
        ParseStep { expr: None, pos, issues }
    } else if t[pos].kind == TokenKind::Not {
        let next = pos + 1;
        if next >= t.len() || t[next].kind == TokenKind::Or || t[next].kind == TokenKind::RParen
            || t[next].kind == TokenKind::And {
            ParseStep { expr: None, pos: next, issues }
        } else {
            let r = unary_at(t, next, depth, issues);
            ParseStep {
                expr: match r.expr {
                    Some(inner) => Some(ExprView::Not(Box::new(inner))),
                    None => None,
                },
                pos: r.pos,
                issues: r.issues,
            }
        }
    } else if t[pos].kind == TokenKind::LParen {
        let r = or_from(t, pos + 1, depth + 1, Seq::empty(), true, issues);
        ParseStep {
            expr: r.expr,
            pos: if kind_at(t, r.pos, TokenKind::RParen) {
                r.pos + 1
            } else {
                r.pos
            },
            issues: r.issues,
        }
    } else {
        ParseStep {
            expr: match t[pos].term {
                Some((term, source)) => Some(
                    ExprView::Term(TermNodeView { term, start: t[pos].start, end: t[pos].end, source }),
                ),
                None => None,
            },
            pos: pos + 1,
            issues,
        }
    }
}

/// The value of a [`Parsed`].
pub struct ParsedView {
    pub expr: Option<ExprView>,
    pub issues: Seq<SyntaxIssue>,
}

impl View for Parsed {
    type V = ParsedView;

    open spec fn view(&self) -> ParsedView {
        ParsedView { expr: opt_expr_view(self.expr), issues: self.issues@ }
    }
}

/// What the grammar reads from a document.
pub open spec fn parsed_of(segs: Seq<SegmentView>) -> ParsedView {
    let r = or_from(doc_tokens(segs), 0, 0, Seq::empty(), true, Seq::empty());
    ParsedView { expr: r.expr, issues: r.issues }
}

/// The parser's state: the tokens not read yet, last first, so that reading
/// one moves it out of the stack.
struct Parser {
    stack: Vec<DocToken>,
    depth: usize,
    issues: Vec<SyntaxIssue>,
}

/// `stack` holds the tokens of `t` from `pos` on, last first.
pub open spec fn holds_rest(stack: Seq<DocTok>, t: Seq<DocTok>, pos: int) -> bool {
    &&& 0 <= pos <= t.len()
    &&& stack.len() == t.len() - pos
    &&& forall|k: int| 0 <= k < stack.len() ==> #[trigger] stack[k] == t[t.len() - 1 - k]
}

impl Parser {
    spec fn rest(&self) -> Seq<DocTok> {
        self.stack@.map_values(|tok: DocToken| tok@)
    }

    spec fn pos(&self, t: Seq<DocTok>) -> int {
        t.len() - self.stack@.len()
    }

    fn peek(&self) -> (r: Option<TokenKind>)
        ensures
            match r {
                Some(k) => self.stack@.len() > 0 && k == self.stack@[self.stack@.len() - 1]@.kind,
                None => self.stack@.len() == 0,
            },
    {
        let n = self.stack.len();
        if n == 0 {
            None
        } else {
            Some(self.stack[n - 1].kind)
        }
    }

    fn advance(&mut self) -> (r: DocToken)
        requires
            old(self).stack@.len() > 0,
        ensures
            r == old(self).stack@[old(self).stack@.len() - 1],
            final(self).stack@ == old(self).stack@.drop_last(),
            final(self).depth == old(self).depth,
            final(self).issues@ == old(self).issues@,
    {
        match self.stack.pop() {
            Some(token) => token,
            None => {
                assert(false);
                DocToken { kind: TokenKind::Word, span: 0..0, term: None }
            },
        }
    }

    fn parse_or(&mut self, Ghost(t): Ghost<Seq<DocTok>>) -> (r: Option<Expr>)
        requires
            holds_rest(old(self).rest(), t, old(self).pos(t)),
            old(self).depth + old(self).stack@.len() <= usize::MAX,
        ensures
            ({
                let s = or_from(t, old(self).pos(t), old(self).depth as nat, Seq::empty(), true, old(self).issues@);
                &&& opt_expr_view(r) == s.expr
                &&& s.pos == final(self).pos(t)
                &&& holds_rest(final(self).rest(), t, s.pos)
                &&& final(self).issues@ == s.issues
            }),
            final(self).depth == old(self).depth,
            final(self).stack@.len() <= old(self).stack@.len(),
        decreases old(self).stack@.len(), 3nat,
    {
        let ghost depth = self.depth as nat;
        let ghost goal = or_from(t, self.pos(t), depth, Seq::empty(), true, self.issues@);
        let ghost entry = self.stack@.len();
        let mut items: Vec<Expr> = Vec::new();
        let mut expecting = true;
        loop
            invariant
                holds_rest(self.rest(), t, self.pos(t)),
                self.depth == depth,
                self.depth + self.stack@.len() <= usize::MAX,
                self.stack@.len() <= entry,
                entry == old(self).stack@.len(),
                goal == or_from(t, self.pos(t), depth, exprs_view(items@), expecting, self.issues@),
            ensures
                goal == or_from(t, self.pos(t), depth, exprs_view(items@), expecting, self.issues@),
                holds_rest(self.rest(), t, self.pos(t)),
                self.depth == depth,
                self.stack@.len() <= entry,
                self.stack@.len() == 0 || (self.rest()[self.stack@.len() - 1].kind == TokenKind::RParen && depth > 0),
            decreases self.stack@.len(),
        {
            let ghost pos = self.pos(t);
            proof {
                self.lemma_top(t);
            }
            match self.peek() {
                None => break,
                Some(TokenKind::RParen) => {
                    if self.depth > 0 {
                        break;
                    }
                    let ghost prev = self.stack@;
                    self.advance();
                    self.issues.push(SyntaxIssue::StrayParen);
                    proof { self.lemma_after_pop(t, pos, prev); }
                },
                Some(TokenKind::Or) => {
                    let ghost prev = self.stack@;
                    self.advance();
                    if expecting {
                        self.issues.push(SyntaxIssue::StrayOr);
                    }
                    expecting = true;
                    proof { self.lemma_after_pop(t, pos, prev); }
                },
                Some(_) => {
                    let ghost issues = self.issues@;
                    let r = self.parse_and(Ghost(t));
                    let ghost before = exprs_view(items@);
                    match r {
                        Some(e) => {
                            proof { lemma_exprs_view_push(items@, e); }
                            items.push(e);
                        },
                        None => {},
                    }
                    expecting = false;
                    proof {
                        let s = and_from(t, pos, depth, Seq::empty(), issues);
                        assert(exprs_view(items@) == push_some(before, s.expr));
                    }
                },
            }
        }
        proof {
            lemma_exprs_view_index(items@);
        }
        if expecting && items.len() > 0 {
            self.issues.push(SyntaxIssue::StrayOr);
        }
        combine(items, true)
    }

    fn parse_and(&mut self, Ghost(t): Ghost<Seq<DocTok>>) -> (r: Option<Expr>)
        requires
            holds_rest(old(self).rest(), t, old(self).pos(t)),
            old(self).depth + old(self).stack@.len() <= usize::MAX,
        ensures
            ({
                let s = and_from(t, old(self).pos(t), old(self).depth as nat, Seq::empty(), old(self).issues@);
                &&& opt_expr_view(r) == s.expr
                &&& s.pos == final(self).pos(t)
                &&& holds_rest(final(self).rest(), t, s.pos)
                &&& final(self).issues@ == s.issues
            }),
            final(self).depth == old(self).depth,
            final(self).stack@.len() <= old(self).stack@.len(),
            old(self).stack@.len() > 0 && old(self).rest()[old(self).stack@.len() - 1].kind
                != TokenKind::Or && old(self).rest()[old(self).stack@.len() - 1].kind
                != TokenKind::RParen ==> final(self).stack@.len() < old(self).stack@.len(),
        decreases old(self).stack@.len(), 2nat,
    {
        let ghost depth = self.depth as nat;
        let ghost goal = and_from(t, self.pos(t), depth, Seq::empty(), self.issues@);
        let ghost entry = self.stack@.len();
        let mut items: Vec<Expr> = Vec::new();
        loop
            invariant
                holds_rest(self.rest(), t, self.pos(t)),
                self.depth == depth,
                self.depth + self.stack@.len() <= usize::MAX,
                self.stack@.len() <= entry,
                entry == old(self).stack@.len(),
                goal == and_from(t, self.pos(t), depth, exprs_view(items@), self.issues@),
            ensures
                goal == and_from(t, self.pos(t), depth, exprs_view(items@), self.issues@),
                holds_rest(self.rest(), t, self.pos(t)),
                self.depth == depth,
                self.stack@.len() <= entry,
                self.stack@.len() == 0 || self.rest()[self.stack@.len() - 1].kind == TokenKind::Or
                    || self.rest()[self.stack@.len() - 1].kind == TokenKind::RParen,
            decreases self.stack@.len(),
        {
            let ghost pos = self.pos(t);
            proof {
                self.lemma_top(t);
            }
            match self.peek() {
                None => break,
                Some(TokenKind::Or) => break,
                Some(TokenKind::RParen) => break,
                Some(TokenKind::And) => {
                    let ghost prev = self.stack@;
                    self.advance();
                    proof { self.lemma_after_pop(t, pos, prev); }
                },
                Some(_) => {
                    let ghost issues = self.issues@;
                    let r = self.parse_unary(Ghost(t));
                    let ghost before = exprs_view(items@);
                    match r {
                        Some(e) => {
                            proof { lemma_exprs_view_push(items@, e); }
                            items.push(e);
                        },
                        None => {},
                    }
                    proof {
                        let s = unary_at(t, pos, depth, issues);
                        assert(exprs_view(items@) == push_some(before, s.expr));
                    }
                },
            }
        }
        proof {
            lemma_exprs_view_index(items@);
        }
        combine(items, false)
    }

    fn parse_unary(&mut self, Ghost(t): Ghost<Seq<DocTok>>) -> (r: Option<Expr>)
        requires
            holds_rest(old(self).rest(), t, old(self).pos(t)),
            old(self).depth + old(self).stack@.len() <= usize::MAX,
            old(self).stack@.len() > 0,
        ensures
            ({
                let s = unary_at(t, old(self).pos(t), old(self).depth as nat, old(self).issues@);
                &&& opt_expr_view(r) == s.expr
                &&& s.pos == final(self).pos(t)
                &&& holds_rest(final(self).rest(), t, s.pos)
                &&& final(self).issues@ == s.issues
            }),
            final(self).depth == old(self).depth,
            final(self).stack@.len() < old(self).stack@.len(),
        decreases old(self).stack@.len(), 1nat,
    {
        let ghost pos = self.pos(t);
        proof {
            self.lemma_top(t);
        }
        let kind = self.stack[self.stack.len() - 1].kind;
        let ghost prev = self.stack@;
        if kind == TokenKind::Not {
            self.advance();
            proof {
                self.lemma_after_pop(t, pos, prev);
                self.lemma_top(t);
            }
            match self.peek() {
                None => None,
                Some(TokenKind::Or) => None,
                Some(TokenKind::RParen) => None,
                Some(TokenKind::And) => None,
                Some(_) => {
                    match self.parse_unary(Ghost(t)) {
                        Some(inner) => Some(Expr::Not(Box::new(inner))),
                        None => None,
                    }
                },
            }
        } else if kind == TokenKind::LParen {
            self.advance();
            proof {
                self.lemma_after_pop(t, pos, prev);
            }
            self.depth = self.depth + 1;
            let inner = self.parse_or(Ghost(t));
            self.depth = self.depth - 1;
            proof {
                self.lemma_top(t);
            }
            if self.peek() == Some(TokenKind::RParen) {
                let ghost at = self.pos(t);
                let ghost before = self.stack@;
                self.advance();
                proof {
                    self.lemma_after_pop(t, at, before);
                }
            }
            inner
        } else {
            let token = self.advance();
            proof {
                self.lemma_after_pop(t, pos, prev);
                assert(token@ == t[pos]);
            }
            match token.term {
                Some((term, source)) => Some(Expr::Term(TermNode { term, span: token.span, source })),
                None => None,
            }
        }
    }

    /// The top of the stack is the token at the current position.
    proof fn lemma_top(&self, t: Seq<DocTok>)
        requires
            holds_rest(self.rest(), t, self.pos(t)),
        ensures
            self.stack@.len() > 0 ==> self.stack@[self.stack@.len() - 1]@ == t[self.pos(t)],
            self.stack@.len() > 0 ==> self.rest()[self.stack@.len() - 1] == t[self.pos(t)],
            self.stack@.len() == 0 ==> self.pos(t) == t.len(),
    {
        if self.stack@.len() > 0 {
            assert(self.rest()[self.stack@.len() - 1] == t[t.len() - 1 - (self.stack@.len() - 1)]);
        }
    }

    /// Popping the top moves on by one token.
    proof fn lemma_after_pop(&self, t: Seq<DocTok>, pos: int, prev: Seq<DocToken>)
        requires
            holds_rest(prev.map_values(|tok: DocToken| tok@), t, pos),
            prev.len() > 0,
            self.stack@ == prev.drop_last(),
        ensures
            holds_rest(self.rest(), t, self.pos(t)),
            self.pos(t) == pos + 1,
    {
        let before = prev.map_values(|tok: DocToken| tok@);
        assert forall|k: int| 0 <= k < self.rest().len() implies #[trigger] self.rest()[k] == t[t.len() - 1 - k] by {
            assert(self.rest()[k] == self.stack@[k]@);
            assert(self.stack@[k] == prev[k]);
            assert(before[k] == prev[k]@);
        }
    }
}

/// `items` as one condition: nothing, the single item, or their AND or OR.
pub fn combine(items: Vec<Expr>, or: bool) -> (r: Option<Expr>)
    ensures
        opt_expr_view(r) == combined(exprs_view(items@), or),
{
    proof {
        lemma_exprs_view_index(items@);
    }
    let n = items.len();
    if n == 0 {
        None
    } else if n == 1 {
        let mut items = items;
        proof {
            assert(items@.subrange(0, 0) =~= Seq::<Expr>::empty());
            assert(exprs_view(items@)[0] == items@[0]@);
        }
        items.pop()
    } else if or {
        Some(Expr::Or(items))
    } else {
        Some(Expr::And(items))
    }
}

/// Parses the document's text into a condition tree.
pub fn parse(document: &QueryDocument) -> (r: Parsed)
    ensures
        r@ == parsed_of(document@),
{
    let ghost t = doc_tokens(document@);
    let mut forward = document_tokens(document);
    let mut stack: Vec<DocToken> = Vec::new();
    let n = forward.len();
    while forward.len() > 0
        invariant
            n == t.len(),
            forward@.len() + stack@.len() == n,
            forall|k: int| 0 <= k < forward@.len() ==> (#[trigger] forward@[k])@ == t[k],
            forall|k: int| 0 <= k < stack@.len() ==> (#[trigger] stack@[k])@ == t[n - 1 - k],
        decreases forward@.len(),
    {
        let ghost before = stack@;
        let token = forward.pop().unwrap();
        stack.push(token);
        proof {
            assert forall|k: int| 0 <= k < stack@.len() implies (#[trigger] stack@[k])@ == t[n - 1 - k] by {
                if k < before.len() {
                    assert(stack@[k] == before[k]);
                }
            }
        }
    }
    let mut parser = Parser { stack, depth: 0, issues: Vec::new() };
    proof {
        assert forall|k: int| 0 <= k < parser.rest().len() implies #[trigger] parser.rest()[k] == t[t.len() - 1 - k] by {
            assert(parser.rest()[k] == parser.stack@[k]@);
        }
    }
    let expr = parser.parse_or(Ghost(t));
    Parsed { expr, issues: parser.issues }
}

} // verus!
