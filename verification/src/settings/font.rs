//! Candidate list behind the font combo box.
//!
//! A system can carry hundreds of font families, so matching runs here rather
//! than in a UI binding that would walk the whole list on every keystroke.

use vstd::prelude::*;
use crate::search::normalize::{lowercase_text, to_lowercase};
use crate::text::{contains_text, has_substring, trim, trimmed};

verus! {

/// Choices that are always offered, whatever the system carries: `default`
/// is the family the UI toolkit picks, `system` the OS UI font.
pub fn builtin_fonts() -> (r: Vec<&'static str>)
    ensures
        r@.map_values(|s: &'static str| s@) == builtin_font_names(),
{
    let r = vec!["default", "system"];
    proof {
        reveal_strlit("default");
        reveal_strlit("system");
    }
    assert(r@.map_values(|s: &'static str| s@) =~= builtin_font_names());
    r
}

pub open spec fn builtin_font_names() -> Seq<Seq<char>> {
    seq!["default"@, "system"@]
}

/// Whether a name is offered for the folded query `needle`.
pub open spec fn name_matches(name: Seq<char>, needle: Seq<char>) -> bool {
    needle.len() == 0 || has_substring(lowercase_text(name), needle)
}

/// The names offered for `needle`, in order.
pub open spec fn matching_names(names: Seq<Seq<char>>, needle: Seq<char>) -> Seq<Seq<char>>
    decreases names.len(),
{
    if names.len() == 0 {
        Seq::empty()
    } else {
        let rest = matching_names(names.drop_last(), needle);
        if name_matches(names.last(), needle) {
            rest.push(names.last())
        } else {
            rest
        }
    }
}

pub open spec fn texts(v: Seq<String>) -> Seq<Seq<char>> {
    v.map_values(|s: String| s@)
}

pub(crate) fn push_if_matching(out: &mut Vec<String>, name: String, needle: &String, Ghost(all): Ghost<Seq<Seq<char>>>, Ghost(i): Ghost<int>)
    requires
        0 <= i < all.len(),
        all[i] == name@,
        texts(old(out)@) == matching_names(all.take(i), needle@),
    ensures
        texts(final(out)@) == matching_names(all.take(i + 1), needle@),
{
    proof {
        assert(all.take(i + 1).drop_last() =~= all.take(i));
    }
    let keep = if needle.as_str().unicode_len() == 0 {
        true
    } else {
        let lower = to_lowercase(name.as_str());
        contains_text(lower.as_str(), needle.as_str())
    };
    let ghost before = out@;
    if keep {
        out.push(name);
        assert(texts(out@) =~= texts(before).push(all[i]));
    }
}

/// Matches `families` case-insensitively, keeping the built-in choices first.
pub fn filter(families: &[String], query: &str) -> (r: Vec<String>)
    ensures
        texts(r@) == matching_names(
            builtin_font_names() + texts(families@),
            lowercase_text(trimmed(query@)),
        ),
{
    let trimmed_query = trim(query);
    let needle = to_lowercase(trimmed_query.as_str());
    let builtins = builtin_fonts();
    let ghost all = builtin_font_names() + texts(families@);
    let mut out: Vec<String> = Vec::new();
    let mut i: usize = 0;
    while i < 2
        invariant
            builtins@.len() == 2,
            builtins@.map_values(|s: &'static str| s@) == builtin_font_names(),
            all == builtin_font_names() + texts(families@),
            i <= 2,
            needle@ == lowercase_text(trimmed(query@)),
            texts(out@) == matching_names(all.take(i as int), needle@),
        decreases 2 - i,
    {
        assert(all[i as int] == builtins@[i as int]@);
        let name = String::from_str(builtins[i]);
        push_if_matching(&mut out, name, &needle, Ghost(all), Ghost(i as int));
        i = i + 1;
    }
    let mut k: usize = 0;
    while k < families.len()
        invariant
            all == builtin_font_names() + texts(families@),
            k <= families@.len(),
            needle@ == lowercase_text(trimmed(query@)),
            texts(out@) == matching_names(all.take(k + 2), needle@),
        decreases families@.len() - k,
    {
        assert(all[k + 2] == families@[k as int]@);
        push_if_matching(&mut out, families[k].clone(), &needle, Ghost(all), Ghost(k + 2));
        k = k + 1;
    }
    assert(all.take(families@.len() as int + 2) =~= all);
    out
}

/// The families the platform reported, kept so the filter can rerun without
/// rescanning the font directories.
pub struct FontCatalogue {
    families: Vec<String>,
}

impl FontCatalogue {
    pub closed spec fn stored(self) -> Seq<Seq<char>> {
        texts(self.families@)
    }

    pub fn replace(&mut self, families: Vec<String>)
        ensures
            final(self).stored() == texts(families@),
    {
        self.families = families;
    }

    pub fn snapshot(&self) -> (r: Vec<String>)
        ensures
            texts(r@) == self.stored(),
    {
        let mut out: Vec<String> = Vec::new();
        let mut i: usize = 0;
        while i < self.families.len()
            invariant
                i <= self.families@.len(),
                texts(out@) == texts(self.families@.take(i as int)),
            decreases self.families@.len() - i,
        {
            let ghost before = out@;
            out.push(self.families[i].clone());
            proof {
                assert(self.families@.take(i + 1) =~= self.families@.take(i as int).push(self.families@[i as int]));
                assert(texts(out@) =~= texts(before).push(self.families@[i as int]@));
                assert(texts(self.families@.take(i + 1)) =~= texts(self.families@.take(i as int)).push(self.families@[i as int]@));
            }
            i = i + 1;
        }
        assert(self.families@.take(self.families@.len() as int) =~= self.families@);
        out
    }
}

impl Default for FontCatalogue {
    fn default() -> (r: Self)
        ensures
            r.stored().len() == 0,
    {
        FontCatalogue { families: Vec::new() }
    }
}

} // verus!
