//! Searching the settings screen: which sections stay listed for a query.

use vstd::prelude::*;
use crate::search::normalize::{lowercase_text, to_lowercase};
use crate::text::{contains_text, has_substring, trim, trimmed};

verus! {

/// Whether a section whose searchable text is `haystack` stays listed for the
/// folded query `needle`: always for an empty query, else when the text
/// contains it ignoring case.
pub open spec fn section_matches(needle: Seq<char>, haystack: Seq<char>) -> bool {
    needle.len() == 0 || has_substring(lowercase_text(haystack), needle)
}

/// The folded query and the sections left listed for it.
pub struct SectionFilter {
    pub query: String,
    pub show_basic: bool,
    pub show_date_time: bool,
    pub show_appearance: bool,
    pub show_account: bool,
}

pub fn matches_search(needle: &str, haystack: &str) -> (r: bool)
    ensures
        r == section_matches(needle@, haystack@),
{
    if needle.unicode_len() == 0 {
        return true;
    }
    let lower = to_lowercase(haystack);
    contains_text(lower.as_str(), needle)
}

/// Folds `query` (trimmed, lower-cased) and tests each section's text
/// against it.
pub fn search_settings(
    query: &str,
    basic: &str,
    date_time: &str,
    appearance: &str,
    account: &str,
) -> (r: SectionFilter)
    ensures
        r.query@ == lowercase_text(trimmed(query@)),
        r.show_basic == section_matches(r.query@, basic@),
        r.show_date_time == section_matches(r.query@, date_time@),
        r.show_appearance == section_matches(r.query@, appearance@),
        r.show_account == section_matches(r.query@, account@),
{
    let trimmed_query = trim(query);
    let folded = to_lowercase(trimmed_query.as_str());
    let show_basic = matches_search(folded.as_str(), basic);
    let show_date_time = matches_search(folded.as_str(), date_time);
    let show_appearance = matches_search(folded.as_str(), appearance);
    let show_account = matches_search(folded.as_str(), account);
    SectionFilter { query: folded, show_basic, show_date_time, show_appearance, show_account }
}

} // verus!
