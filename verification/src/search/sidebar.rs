//! What the sidebar does to the query, and what the query lights up in it.
//!
//! Sidebar items (due and state buttons, projects, lists, pinned tags) rewrite
//! the query instead of holding a selection of their own. Edits go through the
//! condition tree and write it back, so combining with an existing `a | b`
//! adds the parentheses precedence requires.

use vstd::prelude::*;
use crate::search::document::{doc_text, segs_view, tidied, QueryDocument, Segment, SegmentView};
use crate::search::normalize::{fold, folded};
use crate::search::parser::{combine, combined, copy_expr, expr_precedence, exprs_view, lemma_exprs_view_index, lemma_exprs_view_push, parse, parsed_of, Expr, ExprView, Parsed, Term, TermNode, TermNodeView, TermView};
use crate::search::resolve::{Reference, ReferenceView};
use crate::text::{byte_len, same_text};

verus! {

/// A sidebar item, as far as the query is concerned.
#[derive(Debug, PartialEq, Eq, Hash)]
pub enum ItemKey {
    Ref(Reference),
    /// A pinned tag, by folded name.
    Tag(String),
}

/// The value of an [`ItemKey`].
pub enum ItemKeyView {
    Ref(ReferenceView),
    Tag(Seq<char>),
}

impl View for ItemKey {
    type V = ItemKeyView;

    open spec fn view(&self) -> ItemKeyView {
        match self {
            ItemKey::Ref(r) => ItemKeyView::Ref(r@),
            ItemKey::Tag(t) => ItemKeyView::Tag(t@),
        }
    }
}

impl Clone for ItemKey {
    fn clone(&self) -> (r: Self)
        ensures
            r@ == self@,
    {
        match self {
            ItemKey::Ref(r) => ItemKey::Ref(r.clone()),
            ItemKey::Tag(t) => ItemKey::Tag(t.clone()),
        }
    }
}

/// How a sidebar item changes the query.
#[derive(Debug, Clone, Copy, PartialEq, Eq, Structural)]
pub enum QueryEdit {
    /// Plain click: show only this item, or clear when it is already all there is.
    Click,
    /// Primary modifier + click: AND it in, or take it out of the AND terms.
    ToggleAnd,
    /// Secondary modifier + click: OR it in, or take it out of the OR terms.
    ToggleOr,
    /// Context menu entries.
    Replace,
    And,
    Or,
    Exclude,
    Remove,
}

/// How strongly the query uses a sidebar item.
#[derive(Debug, Clone, Copy, PartialEq, Eq, Structural)]
pub enum Highlight {
    /// Not used by the query.
    Plain,
    /// One of the top-level OR terms.
    Weak,
    /// One of the top-level AND terms, or the whole query.
    Strong,
    /// Negated at the top level.
    Excluded,
}

impl Default for Highlight {
    fn default() -> (r: Self)
        ensures
            r == Highlight::Plain,
    {
        Highlight::Plain
    }
}

/// Which terms an edit takes an item out of.
#[derive(Debug, Clone, Copy, PartialEq, Eq, Structural)]
pub enum Scope {
    And,
    Or,
    Any,
}

/// The item a term stands for, if it is one the sidebar shows.
pub open spec fn key_of_expr(e: ExprView) -> Option<ItemKeyView> {
    match e {
        ExprView::Term(node) => match node.term {
            TermView::Ref(r) => Some(ItemKeyView::Ref(r)),
            TermView::Tag(name) => Some(ItemKeyView::Tag(name)),
            _ => None,
        },
        _ => None,
    }
}

pub open spec fn is_item(e: ExprView, key: ItemKeyView) -> bool {
    key_of_expr(e) == Some(key)
}

pub open spec fn is_negated_item(e: ExprView, key: ItemKeyView) -> bool {
    match e {
        ExprView::Not(inner) => is_item(*inner, key),
        _ => false,
    }
}

/// Whether one of `items` is the term for `key`.
pub open spec fn has_item(items: Seq<ExprView>, key: ItemKeyView) -> bool {
    exists|i: int| 0 <= i < items.len() && #[trigger] is_item(items[i], key)
}

/// Whether `key` is the query, or one of its top-level AND terms.
pub open spec fn in_and_terms(root: Option<ExprView>, key: ItemKeyView) -> bool {
    match root {
        Some(ExprView::And(items)) => has_item(items, key),
        Some(other) => is_item(other, key),
        None => false,
    }
}

/// Whether `key` is the query, or one of its top-level OR terms.
pub open spec fn in_or_terms(root: Option<ExprView>, key: ItemKeyView) -> bool {
    match root {
        Some(ExprView::Or(items)) => has_item(items, key),
        Some(other) => is_item(other, key),
        None => false,
    }
}

/// `items` without the terms for `key` (and, with `negated_too`, without the
/// negated ones either).
pub open spec fn kept(items: Seq<ExprView>, key: ItemKeyView, negated_too: bool) -> Seq<ExprView>
    decreases items.len(),
{
    if items.len() == 0 {
        items
    } else {
        let front = kept(items.drop_last(), key, negated_too);
        let x = items.last();
        if is_item(x, key) || (negated_too && is_negated_item(x, key)) {
            front
        } else {
            front.push(x)
        }
    }
}

/// The query with the item taken out of the terms that `scope` names.
pub open spec fn removed(root: Option<ExprView>, key: ItemKeyView, scope: Scope) -> Option<ExprView> {
    let and = scope != Scope::Or;
    let or = scope != Scope::And;
    match root {
        None => None,
        Some(e) => if is_item(e, key) || (and && is_negated_item(e, key)) {
            None
        } else {
            match e {
                ExprView::And(items) => if and {
                    combined(kept(items, key, true), false)
                } else {
                    Some(e)
                },
                ExprView::Or(items) => if or {
                    combined(kept(items, key, false), true)
                } else {
                    Some(e)
                },
                _ => Some(e),
            }
        },
    }
}

/// The query with `addition` added as an AND (or, with `or`, an OR) term.
pub open spec fn joined(root: Option<ExprView>, addition: ExprView, or: bool) -> ExprView {
    match root {
        None => addition,
        Some(e) => match e {
            ExprView::And(items) if !or => ExprView::And(items.push(addition)),
            ExprView::Or(items) if or => ExprView::Or(items.push(addition)),
            _ => if or {
                ExprView::Or(seq![e, addition])
            } else {
                ExprView::And(seq![e, addition])
            },
        },
    }
}

/// `e` as an operand of an operator of binding strength `strength`.
pub open spec fn parenthesised(e: ExprView, strength: u8, inner: Seq<SegmentView>) -> Seq<SegmentView> {
    if expr_precedence(e) < strength {
        seq![SegmentView::Text("("@)] + inner + seq![SegmentView::Text(")"@)]
    } else {
        inner
    }
}

/// A tree written back as segments, with parentheses only where needed.
pub open spec fn printed(e: ExprView) -> Seq<SegmentView>
    decreases e,
{
    match e {
        ExprView::And(items) => printed_list(items, " "@, 2),
        ExprView::Or(items) => printed_list(items, " | "@, 1),
        ExprView::Not(inner) => seq![SegmentView::Text("-"@)] + parenthesised(*inner, 3, printed(*inner)),
        ExprView::Term(node) => seq![node.source],
    }
}

/// The operands of an AND or OR, separated by `separator`.
pub open spec fn printed_list(items: Seq<ExprView>, separator: Seq<char>, strength: u8) -> Seq<SegmentView>
    decreases items,
{
    if items.len() == 0 {
        Seq::empty()
    } else {
        let last = items[items.len() - 1];
        let front = items.subrange(0, items.len() - 1);
        printed_list(front, separator, strength) + (if items.len() > 1 {
            seq![SegmentView::Text(separator)]
        } else {
            Seq::empty()
        }) + parenthesised(last, strength, printed(last))
    }
}

pub open spec fn printed_opt(e: Option<ExprView>) -> Seq<SegmentView> {
    match e {
        Some(x) => printed(x),
        None => Seq::empty(),
    }
}

/// The term a sidebar item adds: its segment, standing for nothing until the
/// query is read again.
pub open spec fn item_term(item: SegmentView) -> ExprView {
    ExprView::Term(TermNodeView { term: TermView::Ignore, start: 0, end: 0, source: item })
}

/// The segments of the query after `edit` for the item `key`, written as `item`.
pub open spec fn edited_segments(
    segs: Seq<SegmentView>,
    key: ItemKeyView,
    item: SegmentView,
    edit: QueryEdit,
) -> Seq<SegmentView> {
    let root = parsed_of(segs).expr;
    let term = item_term(item);
    match edit {
        QueryEdit::Click => if root is Some && is_item(root->0, key) {
            Seq::empty()
        } else {
            seq![item]
        },
        QueryEdit::Replace => seq![item],
        QueryEdit::ToggleAnd => if in_and_terms(root, key) {
            printed_opt(removed(root, key, Scope::And))
        } else {
            printed(joined(root, term, false))
        },
        QueryEdit::ToggleOr => if in_or_terms(root, key) {
            printed_opt(removed(root, key, Scope::Or))
        } else {
            printed(joined(root, term, true))
        },
        QueryEdit::And => printed(joined(root, term, false)),
        QueryEdit::Or => printed(joined(root, term, true)),
        QueryEdit::Exclude => printed(joined(root, ExprView::Not(Box::new(term)), false)),
        QueryEdit::Remove => printed_opt(removed(root, key, Scope::Any)),
    }
}

fn same_key(a: &ItemKey, b: &ItemKey) -> (r: bool)
    ensures
        r == (a@ == b@),
{
    match (a, b) {
        (ItemKey::Ref(x), ItemKey::Ref(y)) => x.same_as(y),
        (ItemKey::Tag(x), ItemKey::Tag(y)) => same_text(x.as_str(), y.as_str()),
        _ => false,
    }
}

/// The item a term stands for, if it is one the sidebar shows.
fn key_of(expr: &Expr) -> (r: Option<ItemKey>)
    ensures
        match r {
            Some(k) => key_of_expr(expr@) == Some(k@),
            None => key_of_expr(expr@) is None,
        },
{
    match expr {
        Expr::Term(node) => match &node.term {
            Term::Ref(reference) => Some(ItemKey::Ref(reference.clone())),
            Term::Tag(name) => Some(ItemKey::Tag(name.clone())),
            _ => None,
        },
        _ => None,
    }
}

/// The key a pinned tag is compared by.
pub fn tag_key(name: &str) -> (r: ItemKey)
    ensures
        r@ == ItemKeyView::Tag(folded(name@)),
{
    ItemKey::Tag(fold(name))
}

fn is_item_exec(expr: &Expr, key: &ItemKey) -> (r: bool)
    ensures
        r == is_item(expr@, key@),
{
    match key_of(expr) {
        Some(k) => same_key(&k, key),
        None => false,
    }
}

fn is_negated_item_exec(expr: &Expr, key: &ItemKey) -> (r: bool)
    ensures
        r == is_negated_item(expr@, key@),
{
    match expr {
        Expr::Not(inner) => is_item_exec(inner, key),
        _ => false,
    }
}

fn any_item(items: &Vec<Expr>, key: &ItemKey) -> (r: bool)
    ensures
        r == has_item(exprs_view(items@), key@),
{
    proof {
        lemma_exprs_view_index(items@);
    }
    let mut i: usize = 0;
    while i < items.len()
        invariant
            i <= items@.len(),
            exprs_view(items@).len() == items@.len(),
            forall|j: int| 0 <= j < items@.len() ==> #[trigger] exprs_view(items@)[j] == items@[j]@,
            forall|j: int| 0 <= j < i ==> !is_item(#[trigger] exprs_view(items@)[j], key@),
        decreases items@.len() - i,
    {
        if is_item_exec(&items[i], key) {
            assert(is_item(exprs_view(items@)[i as int], key@));
            return true;
        }
        i = i + 1;
    }
    false
}

fn in_terms(root: &Option<Expr>, key: &ItemKey, or: bool) -> (r: bool)
    ensures
        r == if or {
            in_or_terms(crate::search::parser::opt_expr_view(*root), key@)
        } else {
            in_and_terms(crate::search::parser::opt_expr_view(*root), key@)
        },
{
    match root {
        Some(Expr::And(items)) => {
            if or {
                false
            } else {
                let found = any_item(items, key);
                found
            }
        },
        Some(Expr::Or(items)) => if or {
            any_item(items, key)
        } else {
            false
        },
        Some(other) => is_item_exec(other, key),
        None => false,
    }
}

fn kept_items(items: &Vec<Expr>, key: &ItemKey, negated_too: bool) -> (r: Vec<Expr>)
    ensures
        exprs_view(r@) == kept(exprs_view(items@), key@, negated_too),
{
    proof {
        lemma_exprs_view_index(items@);
    }
    let mut out: Vec<Expr> = Vec::new();
    let mut i: usize = 0;
    while i < items.len()
        invariant
            i <= items@.len(),
            exprs_view(items@).len() == items@.len(),
            forall|j: int| 0 <= j < items@.len() ==> #[trigger] exprs_view(items@)[j] == items@[j]@,
            exprs_view(out@) == kept(exprs_view(items@).take(i as int), key@, negated_too),
        decreases items@.len() - i,
    {
        let ghost all = exprs_view(items@);
        proof {
            assert(all.take(i + 1).drop_last() =~= all.take(i as int));
            assert(all.take(i + 1).last() == items@[i as int]@);
        }
        let drop = is_item_exec(&items[i], key) || (negated_too && is_negated_item_exec(&items[i], key));
        if !drop {
            let x = copy_expr(&items[i]);
            proof {
                lemma_exprs_view_push(out@, x);
            }
            out.push(x);
        }
        i = i + 1;
    }
    assert(exprs_view(items@).take(items@.len() as int) =~= exprs_view(items@));
    out
}

fn remove(root: Option<Expr>, key: &ItemKey, scope: Scope) -> (r: Option<Expr>)
    ensures
        crate::search::parser::opt_expr_view(r) == removed(
            crate::search::parser::opt_expr_view(root),
            key@,
            scope,
        ),
{
    let and = scope != Scope::Or;
    let or = scope != Scope::And;
    match root {
        None => None,
        Some(expr) => {
            if is_item_exec(&expr, key) || (and && is_negated_item_exec(&expr, key)) {
                return None;
            }
            match expr {
                Expr::And(items) => if and {
                    combine(kept_items(&items, key, true), false)
                } else {
                    Some(Expr::And(items))
                },
                Expr::Or(items) => if or {
                    combine(kept_items(&items, key, false), true)
                } else {
                    Some(Expr::Or(items))
                },
                other => Some(other),
            }
        },
    }
}

fn join(root: Option<Expr>, addition: Expr, or: bool) -> (r: Expr)
    ensures
        r@ == joined(crate::search::parser::opt_expr_view(root), addition@, or),
{
    match root {
        None => addition,
        Some(expr) => match expr {
            Expr::And(items) if !or => {
                let mut items = items;
                proof {
                    lemma_exprs_view_push(items@, addition);
                }
                items.push(addition);
                Expr::And(items)
            },
            Expr::Or(items) if or => {
                let mut items = items;
                proof {
                    lemma_exprs_view_push(items@, addition);
                }
                items.push(addition);
                Expr::Or(items)
            },
            other => {
                let ghost first = other@;
                let mut items: Vec<Expr> = Vec::new();
                proof {
                    lemma_exprs_view_push(items@, other);
                }
                items.push(other);
                proof {
                    lemma_exprs_view_push(items@, addition);
                    assert(exprs_view(Seq::<Expr>::empty()) =~= Seq::<ExprView>::empty());
                }
                items.push(addition);
                assert(exprs_view(items@) =~= seq![first, addition@]);
                if or {
                    Expr::Or(items)
                } else {
                    Expr::And(items)
                }
            },
        },
    }
}

fn push_text(out: &mut Vec<Segment>, value: &str)
    ensures
        segs_view(final(out)@) == segs_view(old(out)@).push(SegmentView::Text(value@)),
{
    out.push(Segment::Text(String::from_str(value)));
    assert(segs_view(out@) =~= segs_view(old(out)@).push(SegmentView::Text(value@)));
}

/// Writes a tree back as segments, with parentheses only where needed.
fn print(expr: &Expr, out: &mut Vec<Segment>)
    ensures
        segs_view(final(out)@) == segs_view(old(out)@) + printed(expr@),
    decreases expr, 0nat,
{
    match expr {
        Expr::And(items) => {
            print_items(items, " ", 2, out);
        },
        Expr::Or(items) => {
            print_items(items, " | ", 1, out);
        },
        Expr::Not(inner) => {
            push_text(out, "-");
            proof {
                reveal_strlit("-");
            }
            print_operand(inner, 3, out);
            assert(segs_view(out@) =~= segs_view(old(out)@) + printed(expr@));
        },
        Expr::Term(node) => {
            out.push(node.source.clone());
            assert(segs_view(out@) =~= segs_view(old(out)@) + printed(expr@));
        },
    }
}

fn print_items(items: &Vec<Expr>, separator: &str, strength: u8, out: &mut Vec<Segment>)
    ensures
        segs_view(final(out)@) == segs_view(old(out)@) + printed_list(exprs_view(items@), separator@, strength),
    decreases items, 1nat,
{
    proof {
        lemma_exprs_view_index(items@);
    }
    let ghost all = exprs_view(items@);
    let mut i: usize = 0;
    while i < items.len()
        invariant
            i <= items@.len(),
            all == exprs_view(items@),
            all.len() == items@.len(),
            forall|j: int| 0 <= j < items@.len() ==> #[trigger] all[j] == items@[j]@,
            segs_view(out@) == segs_view(old(out)@) + printed_list(all.take(i as int), separator@, strength),
        decreases items@.len() - i,
    {
        let ghost before = segs_view(out@);
        if i > 0 {
            push_text(out, separator);
        }
        proof {
            assert(decreases_to!(items => items@[i as int]));
        }
        print_operand(&items[i], strength, out);
        proof {
            let next = all.take(i + 1);
            assert(next.subrange(0, next.len() - 1) =~= all.take(i as int));
            assert(next[next.len() - 1] == items@[i as int]@);
            assert(segs_view(out@) =~= segs_view(old(out)@) + printed_list(next, separator@, strength));
        }
        i = i + 1;
    }
    assert(all.take(items@.len() as int) =~= all);
}

fn print_operand(expr: &Expr, strength: u8, out: &mut Vec<Segment>)
    ensures
        segs_view(final(out)@) == segs_view(old(out)@) + parenthesised(expr@, strength, printed(expr@)),
    decreases expr, 2nat,
{
    if expr.precedence() < strength {
        push_text(out, "(");
        print(expr, out);
        push_text(out, ")");
        proof {
            reveal_strlit("(");
            reveal_strlit(")");
        }
        assert(segs_view(out@) =~= segs_view(old(out)@) + parenthesised(expr@, strength, printed(expr@)));
    } else {
        print(expr, out);
    }
}

/// Applies `edit` for the item written as `item` (a bound token or `#tag`).
pub fn apply(document: &QueryDocument, key: &ItemKey, item: Segment, edit: QueryEdit) -> (r: QueryDocument)
    requires
        byte_len(doc_text(edited_segments(document@, key@, item@, edit))) <= usize::MAX,
    ensures
        r@ == tidied(edited_segments(document@, key@, item@, edit)),
{
    let root = parse(document).expr;
    let ghost root_view = crate::search::parser::opt_expr_view(root);
    let ghost item_view = item@;
    let term = Expr::Term(TermNode { term: Term::Ignore, span: 0..0, source: item.clone() });
    let next = match edit {
        QueryEdit::Click => {
            let clear = match &root {
                Some(expr) => is_item_exec(expr, key),
                None => false,
            };
            if clear {
                None
            } else {
                let single = vec![item];
                assert(segs_view(single@) =~= seq![item_view]);
                return QueryDocument::from_segments(single);
            }
        },
        QueryEdit::Replace => {
            let single = vec![item];
            assert(segs_view(single@) =~= seq![item_view]);
            return QueryDocument::from_segments(single);
        },
        QueryEdit::ToggleAnd => if in_terms(&root, key, false) {
            remove(root, key, Scope::And)
        } else {
            Some(join(root, term, false))
        },
        QueryEdit::ToggleOr => if in_terms(&root, key, true) {
            remove(root, key, Scope::Or)
        } else {
            Some(join(root, term, true))
        },
        QueryEdit::And => Some(join(root, term, false)),
        QueryEdit::Or => Some(join(root, term, true)),
        QueryEdit::Exclude => Some(join(root, Expr::Not(Box::new(term)), false)),
        QueryEdit::Remove => remove(root, key, Scope::Any),
    };
    let mut segments: Vec<Segment> = Vec::new();
    match &next {
        Some(expr) => print(expr, &mut segments),
        None => {},
    }
    assert(segs_view(segments@) =~= edited_segments(document@, key@, item_view, edit));
    QueryDocument::from_segments(segments)
}

/// How a term lights up its item, at the top level with strength `level`.
pub open spec fn note(e: ExprView, level: Highlight) -> Option<(ItemKeyView, Highlight)> {
    let (target, lit) = match e {
        ExprView::Not(inner) if level == Highlight::Strong => (*inner, Highlight::Excluded),
        _ => (e, level),
    };
    match key_of_expr(target) {
        Some(k) => Some((k, lit)),
        None => None,
    }
}

/// The notes of each of `items`, in order.
pub open spec fn notes(items: Seq<ExprView>, level: Highlight) -> Seq<(ItemKeyView, Highlight)>
    decreases items.len(),
{
    if items.len() == 0 {
        Seq::empty()
    } else {
        let front = notes(items.drop_last(), level);
        match note(items.last(), level) {
            Some(x) => front.push(x),
            None => front,
        }
    }
}

/// What each sidebar item looks like under a query.
pub open spec fn highlights_of(root: Option<ExprView>) -> Seq<(ItemKeyView, Highlight)> {
    match root {
        Some(ExprView::And(items)) => notes(items, Highlight::Strong),
        Some(ExprView::Or(items)) => notes(items, Highlight::Weak),
        Some(other) => notes(seq![other], Highlight::Strong),
        None => Seq::empty(),
    }
}

pub open spec fn found_view(v: Seq<(ItemKey, Highlight)>) -> Seq<(ItemKeyView, Highlight)> {
    v.map_values(|p: (ItemKey, Highlight)| (p.0@, p.1))
}

fn note_exec(found: &mut Vec<(ItemKey, Highlight)>, expr: &Expr, level: Highlight)
    ensures
        found_view(final(found)@) == match note(expr@, level) {
            Some(x) => found_view(old(found)@).push(x),
            None => found_view(old(found)@),
        },
{
    let (target, lit) = match expr {
        Expr::Not(inner) if level == Highlight::Strong => (&**inner, Highlight::Excluded),
        _ => (expr, level),
    };
    match key_of(target) {
        Some(key) => {
            found.push((key, lit));
            assert(found_view(found@) =~= found_view(old(found)@).push((key@, lit)));
        },
        None => {},
    }
}

fn note_all(found: &mut Vec<(ItemKey, Highlight)>, items: &Vec<Expr>, level: Highlight)
    ensures
        found_view(final(found)@) == found_view(old(found)@) + notes(exprs_view(items@), level),
{
    proof {
        lemma_exprs_view_index(items@);
    }
    let ghost all = exprs_view(items@);
    let mut i: usize = 0;
    while i < items.len()
        invariant
            i <= items@.len(),
            all == exprs_view(items@),
            all.len() == items@.len(),
            forall|j: int| 0 <= j < items@.len() ==> #[trigger] all[j] == items@[j]@,
            found_view(found@) == found_view(old(found)@) + notes(all.take(i as int), level),
        decreases items@.len() - i,
    {
        note_exec(found, &items[i], level);
        proof {
            assert(all.take(i + 1).drop_last() =~= all.take(i as int));
            assert(all.take(i + 1).last() == items@[i as int]@);
            assert(found_view(found@) =~= found_view(old(found)@) + notes(all.take(i + 1), level));
        }
        i = i + 1;
    }
    assert(all.take(items@.len() as int) =~= all);
}

/// What each sidebar item looks like under the current query.
pub fn highlights(parsed: &Parsed) -> (r: Vec<(ItemKey, Highlight)>)
    ensures
        found_view(r@) == highlights_of(parsed@.expr),
{
    let mut found: Vec<(ItemKey, Highlight)> = Vec::new();
    assert(found_view(found@) =~= Seq::<(ItemKeyView, Highlight)>::empty());
    match &parsed.expr {
        Some(Expr::And(items)) => note_all(&mut found, items, Highlight::Strong),
        Some(Expr::Or(items)) => note_all(&mut found, items, Highlight::Weak),
        Some(other) => {
            note_exec(&mut found, other, Highlight::Strong);
            proof {
                let one = seq![other@];
                assert(one.drop_last() =~= Seq::<ExprView>::empty());
                assert(one.last() == other@);
                assert(notes(Seq::<ExprView>::empty(), Highlight::Strong) =~= Seq::<(ItemKeyView, Highlight)>::empty());
                assert(found_view(found@) =~= notes(one, Highlight::Strong));
            }
        },
        None => {},
    }
    found
}

} // verus!
