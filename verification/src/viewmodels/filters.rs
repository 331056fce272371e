//! How the sidebar's filter items meet the query: the item a filter action
//! names, and how strongly the query uses each item.

use vstd::prelude::*;
use crate::search::document::{Segment, SegmentView};
use crate::search::due::{parse_due, DueSpec};
use crate::search::normalize::{fold, folded};
use crate::search::resolve::{rendered, NameIndex, Reference, ReferenceView};
use crate::search::sidebar::{Highlight, ItemKey, ItemKeyView};
use crate::search::vocabulary::{parse_status, Lang, StatusKey};
use crate::text::{chars_of, push_char, push_str, string_of_range};

verus! {

/// The kind of a sidebar filter item.
#[derive(Debug, Clone, Copy, PartialEq, Eq, Structural)]
pub enum FilterKind {
    Due,
    Status,
    Project,
    TaskList,
    Tag,
}

/// How strongly a highlight lights an item: the strongest use wins.
pub open spec fn rank_of(h: Highlight) -> u8 {
    match h {
        Highlight::Plain => 0,
        Highlight::Weak => 1,
        Highlight::Excluded => 2,
        Highlight::Strong => 3,
    }
}

pub fn rank(highlight: Highlight) -> (r: u8)
    ensures
        r == rank_of(highlight),
{
    match highlight {
        Highlight::Plain => 0,
        Highlight::Weak => 1,
        Highlight::Excluded => 2,
        Highlight::Strong => 3,
    }
}

/// The strongest highlight the first `k` entries give `key`.
pub open spec fn strongest(hs: Seq<(ItemKeyView, Highlight)>, key: ItemKeyView) -> Highlight
    decreases hs.len(),
{
    if hs.len() == 0 {
        Highlight::Plain
    } else {
        let front = strongest(hs.drop_last(), key);
        if hs.last().0 == key && rank_of(hs.last().1) > rank_of(front) {
            hs.last().1
        } else {
            front
        }
    }
}

fn same_key(a: &ItemKey, b: &ItemKey) -> (r: bool)
    ensures
        r == (a@ == b@),
{
    match (a, b) {
        (ItemKey::Ref(x), ItemKey::Ref(y)) => x.same_as(y),
        (ItemKey::Tag(x), ItemKey::Tag(y)) => crate::text::same_text(x.as_str(), y.as_str()),
        _ => false,
    }
}

/// How the item `key` is lit, when it appears in `highlights` more than once
/// the strongest use winning.
pub fn ui_highlight(highlights: &[(ItemKey, Highlight)], key: &ItemKey) -> (r: Highlight)
    ensures
        r == strongest(crate::search::sidebar::found_view(highlights@), key@),
{
    let ghost all = crate::search::sidebar::found_view(highlights@);
    let mut result = Highlight::Plain;
    let mut i: usize = 0;
    assert(all.take(0) =~= Seq::<(ItemKeyView, Highlight)>::empty());
    while i < highlights.len()
        invariant
            all == crate::search::sidebar::found_view(highlights@),
            i <= highlights@.len(),
            result == strongest(all.take(i as int), key@),
        decreases highlights@.len() - i,
    {
        proof {
            assert(all.take(i + 1).drop_last() =~= all.take(i as int));
            assert(all.take(i + 1).last() == (highlights@[i as int].0@, highlights@[i as int].1));
        }
        if same_key(&highlights[i].0, key) {
            let next = highlights[i].1;
            if rank(next) > rank(result) {
                result = next;
            }
        }
        i = i + 1;
    }
    assert(all.take(highlights@.len() as int) =~= all);
    result
}

/// `t` without its leading `@`s.
pub open spec fn without_leading_ats(t: Seq<char>) -> Seq<char>
    decreases t.len(),
{
    if t.len() > 0 && t[0] == '@' {
        without_leading_ats(t.drop_first())
    } else {
        t
    }
}

/// The item and token for a reference, while its target exists.
pub open spec fn reference_item(
    ps: Seq<crate::search::resolve::ProjectEntry>,
    ls: Seq<crate::search::resolve::ListEntry>,
    us: Seq<crate::search::resolve::UserEntry>,
    r: ReferenceView,
    lang: Lang,
) -> Option<(ItemKeyView, SegmentView)> {
    match rendered(ps, ls, us, r, lang, false) {
        Some(text) => Some((ItemKeyView::Ref(r), SegmentView::Bound(text, r))),
        None => None,
    }
}

/// The sidebar item a filter action names, and the token it writes. A due
/// item is named by the query of the due filter with that key, if there is one.
pub open spec fn filter_item(
    ps: Seq<crate::search::resolve::ProjectEntry>,
    ls: Seq<crate::search::resolve::ListEntry>,
    us: Seq<crate::search::resolve::UserEntry>,
    kind: FilterKind,
    key: Seq<char>,
    due_query: Option<Seq<char>>,
    lang: Lang,
) -> Option<(ItemKeyView, SegmentView)> {
    match kind {
        FilterKind::Tag => Some((ItemKeyView::Tag(folded(key)), SegmentView::Text(seq!['#'] + key))),
        FilterKind::Due => match due_query {
            Some(q) => match parse_due(without_leading_ats(q)) {
                Some(spec) => reference_item(ps, ls, us, ReferenceView::Due(spec), lang),
                None => None,
            },
            None => None,
        },
        FilterKind::Status => match parse_status(key) {
            Some(s) => reference_item(ps, ls, us, ReferenceView::Status(s), lang),
            None => None,
        },
        FilterKind::Project => reference_item(ps, ls, us, ReferenceView::Project(key), lang),
        FilterKind::TaskList => reference_item(ps, ls, us, ReferenceView::List(key), lang),
    }
}

pub open spec fn item_option(o: Option<(ItemKey, Segment)>) -> Option<(ItemKeyView, SegmentView)> {
    match o {
        Some((k, s)) => Some((k@, s@)),
        None => None,
    }
}

fn trim_ats(text: &str) -> (r: String)
    ensures
        r@ == without_leading_ats(text@),
{
    let chars = chars_of(text);
    let mut i: usize = 0;
    assert(chars@.skip(0) =~= chars@);
    while i < chars.len() && chars[i] == '@'
        invariant
            chars@ == text@,
            i <= chars@.len(),
            without_leading_ats(text@) == without_leading_ats(chars@.skip(i as int)),
        decreases chars@.len() - i,
    {
        assert(chars@.skip(i as int).drop_first() =~= chars@.skip(i + 1));
        i = i + 1;
    }
    assert(chars@.subrange(i as int, chars@.len() as int) =~= chars@.skip(i as int));
    string_of_range(chars.as_slice(), i, chars.len())
}

fn item_for(index: &NameIndex, reference: Reference, lang: Lang) -> (r: Option<(ItemKey, Segment)>)
    ensures
        item_option(r) == reference_item(index.project_entries(), index.list_entries(), index.user_entries(), reference@, lang),
{
    match index.render(&reference, lang, false) {
        Some(text) => Some((ItemKey::Ref(reference.clone()), Segment::Bound { text, reference })),
        None => None,
    }
}

/// The sidebar item a filter action names, and the token it writes.
pub fn sidebar_item(
    index: &NameIndex,
    kind: FilterKind,
    key: &str,
    due_query: Option<&str>,
    lang: Lang,
) -> (r: Option<(ItemKey, Segment)>)
    ensures
        item_option(r) == filter_item(
            index.project_entries(),
            index.list_entries(),
            index.user_entries(),
            kind,
            key@,
            match due_query {
                Some(q) => Some(q@),
                None => None,
            },
            lang,
        ),
{
    match kind {
        FilterKind::Tag => {
            let mut text = String::new();
            push_char(&mut text, '#');
            push_str(&mut text, key);
            assert(text@ =~= seq!['#'] + key@);
            Some((ItemKey::Tag(fold(key)), Segment::Text(text)))
        },
        FilterKind::Due => match due_query {
            Some(query) => {
                let trimmed = trim_ats(query);
                match DueSpec::parse(trimmed.as_str()) {
                    Some(spec) => item_for(index, Reference::Due(spec), lang),
                    None => None,
                }
            },
            None => None,
        },
        FilterKind::Status => match StatusKey::parse(key) {
            Some(status) => item_for(index, Reference::Status(status), lang),
            None => None,
        },
        FilterKind::Project => item_for(index, Reference::Project(String::from_str(key)), lang),
        FilterKind::TaskList => item_for(index, Reference::List(String::from_str(key)), lang),
    }
}

} // verus!
