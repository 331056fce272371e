//! Candidate list behind the time zone combo box.
//!
//! The time zone database has several hundred entries, so the case-insensitive
//! match runs here once per keystroke rather than in a UI binding.

use vstd::prelude::*;
use crate::search::normalize::{lowercase_text, to_lowercase};
use crate::settings::font::{matching_names, push_if_matching, texts};
use crate::text::{trim, trimmed};

verus! {

/// Accepted beside the database names: `system` follows the machine's zone,
/// `UTC` is coordinated universal time.
pub open spec fn shorthand_timezones() -> Seq<Seq<char>> {
    seq!["system"@, "UTC"@]
}

fn shorthands() -> (r: Vec<&'static str>)
    ensures
        r@.map_values(|s: &'static str| s@) == shorthand_timezones(),
{
    let r = vec!["system", "UTC"];
    assert(r@.map_values(|s: &'static str| s@) =~= shorthand_timezones());
    r
}

/// The zones offered for `query`: the shorthands, then the names of `zones`,
/// each kept when it contains the trimmed, lower-cased query ignoring case.
/// An empty query keeps them all.
pub fn timezone_options(zones: &[String], query: &str) -> (r: Vec<String>)
    ensures
        texts(r@) == matching_names(
            shorthand_timezones() + texts(zones@),
            lowercase_text(trimmed(query@)),
        ),
{
    let trimmed_query = trim(query);
    let needle = to_lowercase(trimmed_query.as_str());
    let fixed = shorthands();
    let ghost all = shorthand_timezones() + texts(zones@);
    let mut out: Vec<String> = Vec::new();
    let mut i: usize = 0;
    while i < 2
        invariant
            fixed@.len() == 2,
            fixed@.map_values(|s: &'static str| s@) == shorthand_timezones(),
            all == shorthand_timezones() + texts(zones@),
            i <= 2,
            needle@ == lowercase_text(trimmed(query@)),
            texts(out@) == matching_names(all.take(i as int), needle@),
        decreases 2 - i,
    {
        assert(all[i as int] == fixed@[i as int]@);
        let name = String::from_str(fixed[i]);
        push_if_matching(&mut out, name, &needle, Ghost(all), Ghost(i as int));
        i = i + 1;
    }
    let mut k: usize = 0;
    while k < zones.len()
        invariant
            all == shorthand_timezones() + texts(zones@),
            k <= zones@.len(),
            needle@ == lowercase_text(trimmed(query@)),
            texts(out@) == matching_names(all.take(k + 2), needle@),
        decreases zones@.len() - k,
    {
        assert(all[k + 2] == zones@[k as int]@);
        push_if_matching(&mut out, zones[k].clone(), &needle, Ghost(all), Ghost(k + 2));
        k = k + 1;
    }
    assert(all.take(zones@.len() as int + 2) =~= all);
    out
}

} // verus!
