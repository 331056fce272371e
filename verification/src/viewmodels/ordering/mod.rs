//! Ordering rules for the task list: the comparison behind each sort mode, and
//! the arithmetic that turns a drop position into stored order indexes.

use vstd::prelude::*;
use std::cmp::Ordering;
use crate::search::normalize::{lowercase_text, to_lowercase};
use crate::search::suggestion::{text_less, text_lt};
use crate::text::{chars_of, same_text};

pub mod tree;

pub use tree::insertion_index;

verus! {

/// How the task list is sorted.
#[derive(Debug, Clone, Copy, PartialEq, Eq, Structural)]
pub enum TaskSort {
    Manual,
    Due,
    Priority,
    Title,
}

/// What the sort modes read of a task: its due instant (nanoseconds since the
/// Unix epoch, UTC), its priority, growing with importance, and its title.
#[derive(Debug, Clone, PartialEq, Eq)]
pub struct SortKeys {
    pub due: Option<i128>,
    pub priority: i32,
    pub title: String,
}

pub open spec fn instant_order(a: i128, b: i128) -> Ordering {
    if a < b {
        Ordering::Less
    } else if a == b {
        Ordering::Equal
    } else {
        Ordering::Greater
    }
}

pub open spec fn priority_order(a: i32, b: i32) -> Ordering {
    if a < b {
        Ordering::Less
    } else if a == b {
        Ordering::Equal
    } else {
        Ordering::Greater
    }
}

/// Dated tasks first, by date; undated ones last.
pub open spec fn due_order(a: Option<i128>, b: Option<i128>) -> Ordering {
    match (a, b) {
        (Some(x), Some(y)) => instant_order(x, y),
        (Some(_), None) => Ordering::Less,
        (None, Some(_)) => Ordering::Greater,
        (None, None) => Ordering::Equal,
    }
}

pub open spec fn text_order(a: Seq<char>, b: Seq<char>) -> Ordering {
    if text_lt(a, b) {
        Ordering::Less
    } else if a == b {
        Ordering::Equal
    } else {
        Ordering::Greater
    }
}

/// How two tasks compare under `sort`. The manual order treats every task as
/// equal, so that a stable sort leaves the stored order untouched.
pub open spec fn compared(a: SortKeys, b: SortKeys, sort: TaskSort) -> Ordering {
    match sort {
        TaskSort::Manual => Ordering::Equal,
        TaskSort::Due => due_order(a.due, b.due),
        TaskSort::Priority => priority_order(b.priority, a.priority),
        TaskSort::Title => text_order(lowercase_text(a.title@), lowercase_text(b.title@)),
    }
}

/// Compares two due instants, undated last.
pub fn compare_due(a: Option<i128>, b: Option<i128>) -> (r: Ordering)
    ensures
        r == due_order(a, b),
{
    match (a, b) {
        (Some(x), Some(y)) => if x < y {
            Ordering::Less
        } else if x == y {
            Ordering::Equal
        } else {
            Ordering::Greater
        },
        (Some(_), None) => Ordering::Less,
        (None, Some(_)) => Ordering::Greater,
        (None, None) => Ordering::Equal,
    }
}

/// Compares two tasks under `sort`.
pub fn compare(a: &SortKeys, b: &SortKeys, sort: TaskSort) -> (r: Ordering)
    ensures
        r == compared(*a, *b, sort),
{
    match sort {
        TaskSort::Manual => Ordering::Equal,
        TaskSort::Due => compare_due(a.due, b.due),
        TaskSort::Priority => if b.priority < a.priority {
            Ordering::Less
        } else if b.priority == a.priority {
            Ordering::Equal
        } else {
            Ordering::Greater
        },
        TaskSort::Title => {
            let x = to_lowercase(a.title.as_str());
            let y = to_lowercase(b.title.as_str());
            if text_less(&chars_of(x.as_str()), &chars_of(y.as_str())) {
                Ordering::Less
            } else if same_text(x.as_str(), y.as_str()) {
                Ordering::Equal
            } else {
                Ordering::Greater
            }
        },
    }
}


/// `o` read the other way round.
pub open spec fn reversed(o: Ordering) -> Ordering {
    match o {
        Ordering::Less => Ordering::Greater,
        Ordering::Equal => Ordering::Equal,
        Ordering::Greater => Ordering::Less,
    }
}

/// Of two different texts exactly one comes first; a text never comes before
/// itself.
proof fn lemma_text_lt_total(a: Seq<char>, b: Seq<char>)
    ensures
        a == b ==> !text_lt(a, b),
        a != b ==> (text_lt(a, b) != text_lt(b, a)),
    decreases a.len(),
{
    if a.len() > 0 && b.len() > 0 && a[0] == b[0] {
        lemma_text_lt_total(a.drop_first(), b.drop_first());
        assert(a =~= seq![a[0]] + a.drop_first());
        assert(b =~= seq![b[0]] + b.drop_first());
    } else if a.len() == 0 && b.len() == 0 {
        assert(a =~= b);
    } else if a.len() > 0 && b.len() > 0 {
        if a[0] != b[0] {
            vstd::utf8::char_u32_cast(a[0], a[0] as u32);
            vstd::utf8::char_u32_cast(b[0], b[0] as u32);
        }
    }
}

/// The title sort ignores letter case: how two tasks compare depends only on
/// their titles lower-cased, so titles that differ only in case compare
/// equal, and replacing a title by one with the same lower case changes
/// nothing.
pub proof fn law_titles_compare_without_case(a: SortKeys, b: SortKeys, c: SortKeys, d: SortKeys)
    requires
        lowercase_text(a.title@) == lowercase_text(c.title@),
        lowercase_text(b.title@) == lowercase_text(d.title@),
    ensures
        compared(a, b, TaskSort::Title) == compared(c, d, TaskSort::Title),
        lowercase_text(a.title@) == lowercase_text(b.title@) ==> compared(a, b, TaskSort::Title)
            == Ordering::Equal,
{
    lemma_text_lt_total(lowercase_text(a.title@), lowercase_text(b.title@));
}

/// Swapping the two tasks reverses every comparison, under every sort.
pub proof fn law_swapping_reverses_the_order(a: SortKeys, b: SortKeys, sort: TaskSort)
    ensures
        compared(b, a, sort) == reversed(compared(a, b, sort)),
{
    match sort {
        TaskSort::Title => {
            let x = lowercase_text(a.title@);
            let y = lowercase_text(b.title@);
            lemma_text_lt_total(x, y);
        },
        _ => {},
    }
}

/// The due sort puts the earlier due date first and undated tasks last; the
/// priority sort puts the higher priority first; the manual sort keeps every
/// pair as it is.
pub proof fn law_sort_directions(a: SortKeys, b: SortKeys)
    ensures
        a.due matches Some(x) && b.due matches Some(y) && x < y ==> compared(a, b, TaskSort::Due) == Ordering::Less,
        a.due is Some && b.due is None ==> compared(a, b, TaskSort::Due) == Ordering::Less,
        a.due is None && b.due is None ==> compared(a, b, TaskSort::Due) == Ordering::Equal,
        a.priority > b.priority ==> compared(a, b, TaskSort::Priority) == Ordering::Less,
        a.priority == b.priority ==> compared(a, b, TaskSort::Priority) == Ordering::Equal,
        compared(a, b, TaskSort::Manual) == Ordering::Equal,
{
}

} // verus!
