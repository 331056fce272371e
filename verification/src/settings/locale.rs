//! UI language selection.
//!
//! The bundled catalogues decide what can be shown, so a stored preference is
//! only a request: anything the build does not carry falls back to the system
//! locale and then to the base language.

use vstd::prelude::*;
use crate::text::{ascii_lowercase, ascii_lowercase_string, chars_of, same_text, string_of_range, trim, trimmed, trim_bounds};

verus! {

/// The chars of `s` up to the first one that `stop` accepts.
pub open spec fn prefix_until(s: Seq<char>, stop: spec_fn(char) -> bool) -> Seq<char>
    decreases s.len(),
{
    if s.len() == 0 || stop(s[0]) {
        Seq::empty()
    } else {
        seq![s[0]] + prefix_until(s.drop_first(), stop)
    }
}

pub open spec fn ends_language(c: char) -> bool {
    c == '.' || c == '@'
}

pub open spec fn ends_subtag(c: char) -> bool {
    c == '-' || c == '_'
}

/// The language subtag of a locale string, trimmed and lowercased.
pub open spec fn language_subtag(locale: Seq<char>) -> Seq<char> {
    ascii_lowercase(
        trimmed(prefix_until(prefix_until(locale, |c: char| ends_language(c)), |c: char| ends_subtag(c))),
    )
}

/// The bundled catalogue for a language subtag, if there is one.
pub open spec fn catalogue_for(language: Seq<char>) -> Option<Seq<char>> {
    if language == seq!['e', 'n'] {
        Some(seq!['e', 'n'])
    } else if language == seq!['j', 'a'] {
        Some(seq!['j', 'a'])
    } else {
        None
    }
}

/// What [`supported`] returns for `locale`.
pub open spec fn supported_locale(locale: Seq<char>) -> Option<Seq<char>> {
    let language = language_subtag(locale);
    if language.len() == 0 {
        None
    } else {
        catalogue_for(language)
    }
}

/// What [`resolve_locale`] returns.
pub open spec fn resolved_locale(preferred: Seq<char>, system: Option<Seq<char>>) -> Seq<char> {
    match supported_locale(preferred) {
        Some(tag) => tag,
        None => match system {
            Some(s) => match supported_locale(s) {
                Some(tag) => tag,
                None => seq!['e', 'n'],
            },
            None => seq!['e', 'n'],
        },
    }
}

/// Index of the first char in `chars[..to]` that `stop` accepts, or `to`.
fn cut_at(chars: &Vec<char>, to: usize, a: char, b: char) -> (r: usize)
    requires
        to <= chars@.len(),
    ensures
        r <= to,
        chars@.take(r as int) == prefix_until(chars@.take(to as int), |c: char| c == a || c == b),
{
    let ghost stop = |c: char| c == a || c == b;
    let mut i: usize = 0;
    while i < to && chars[i] != a && chars[i] != b
        invariant
            i <= to <= chars@.len(),
            forall|k: int| 0 <= k < i ==> chars@[k] != a && chars@[k] != b,
        decreases to - i,
    {
        i = i + 1;
    }
    proof {
        lemma_prefix_until_cut(chars@.take(to as int), stop, i as int);
        assert(chars@.take(to as int).take(i as int) =~= chars@.take(i as int));
    }
    i
}

/// `prefix_until` stops at the first accepted char.
pub proof fn lemma_prefix_until_cut(s: Seq<char>, stop: spec_fn(char) -> bool, i: int)
    requires
        0 <= i <= s.len(),
        forall|k: int| 0 <= k < i ==> !stop(s[k]),
        i == s.len() || stop(s[i]),
    ensures
        prefix_until(s, stop) == s.take(i),
    decreases s.len(),
{
    if s.len() == 0 || stop(s[0]) {
        assert(s.take(i) =~= Seq::<char>::empty());
    } else {
        lemma_prefix_until_cut(s.drop_first(), stop, i - 1);
        assert(seq![s[0]] + s.drop_first().take(i - 1) =~= s.take(i));
    }
}

/// Matches a locale string against the bundled catalogues by language subtag.
pub fn supported(locale: &str) -> (r: Option<&'static str>)
    ensures
        match r {
            Some(tag) => supported_locale(locale@) == Some(tag@),
            None => supported_locale(locale@) is None,
        },
{
    let chars = chars_of(locale);
    let first = cut_at(&chars, chars.len(), '.', '@');
    let second = cut_at(&chars, first, '-', '_');
    proof {
        assert(chars@.take(chars@.len() as int) =~= chars@);
        assert((|c: char| c == '.' || c == '@') =~= (|c: char| ends_language(c)));
        assert((|c: char| c == '-' || c == '_') =~= (|c: char| ends_subtag(c)));
    }
    let head = string_of_range(&chars, 0, second);
    let head_chars = chars_of(head.as_str());
    let (a, b) = trim_bounds(&head_chars);
    let core = string_of_range(&head_chars, a, b);
    let language = ascii_lowercase_string(core.as_str());
    proof {
        assert(chars@.subrange(0, second as int) =~= chars@.take(second as int));
        reveal_strlit("en");
        reveal_strlit("ja");
        assert("en"@ =~= seq!['e', 'n']);
        assert("ja"@ =~= seq!['j', 'a']);
    }
    if language.as_str().unicode_len() == 0 {
        return None;
    }
    if crate::text::same_text(language.as_str(), "en") {
        Some("en")
    } else if crate::text::same_text(language.as_str(), "ja") {
        Some("ja")
    } else {
        None
    }
}

/// Picks the language to display.
///
/// `preferred` is the stored setting, `system` whatever the OS reports (in any
/// of the usual shapes, e.g. `ja_JP.UTF-8`). Both are matched on the language
/// subtag alone: the catalogues are per language, not per region.
pub fn resolve_locale(preferred: &str, system: Option<&str>) -> (r: &'static str)
    ensures
        r@ == resolved_locale(preferred@, match system {
            Some(s) => Some(s@),
            None => None,
        }),
{
    proof {
        reveal_strlit("en");
        assert("en"@ =~= seq!['e', 'n']);
    }
    match supported(preferred) {
        Some(tag) => tag,
        None => match system {
            Some(s) => match supported(s) {
                Some(tag) => tag,
                None => "en",
            },
            None => "en",
        },
    }
}


/// Whether a locale the environment reports says anything: not blank, and
/// not the `C` or `POSIX` locale, which only mean "no preference".
pub open spec fn meaningful_locale(value: Seq<char>) -> bool {
    trimmed(value).len() > 0 && value != "C"@ && value != "POSIX"@
}

/// The system locale given the first locale variable that is set: kept when
/// it says anything, dropped otherwise.
pub fn system_locale_from(first_set: Option<String>) -> (r: Option<String>)
    ensures
        match first_set {
            Some(v) => if meaningful_locale(v@) { r == Some(v) } else { r is None },
            None => r is None,
        },
{
    match first_set {
        Some(v) => {
            proof {
                reveal_strlit("C");
                reveal_strlit("POSIX");
            }
            let t = trim(v.as_str());
            if t.as_str().unicode_len() > 0 && !same_text(v.as_str(), "C") && !same_text(v.as_str(), "POSIX") {
                Some(v)
            } else {
                None
            }
        },
        None => None,
    }
}

} // verus!
