//! Character-level normalisation shared by the lexer and the matcher.

use vstd::prelude::*;
use unicode_normalization::UnicodeNormalization;
use crate::text::{chars_of, is_white_space, is_whitespace, push_char, same_text, string_of};

verus! {

/// What NFKC normalisation turns `s` into.
pub uninterp spec fn nfkc_text(s: Seq<char>) -> Seq<char>;

/// What Unicode lowercasing turns `s` into.
pub uninterp spec fn lowercase_text(s: Seq<char>) -> Seq<char>;

/// Calls `UnicodeNormalization::nfkc` on `text` and collects the chars.
#[verifier::external_body]
fn nfkc(text: &str) -> (r: String)
    ensures
        r@ == nfkc_text(text@),
{
    text.nfkc().collect::<String>()
}

/// Calls `str::to_lowercase`.
#[verifier::external_body]
pub(crate) fn to_lowercase(text: &str) -> (r: String)
    ensures
        r@ == lowercase_text(text@),
{
    text.to_lowercase()
}

/// The comparison form of a text: NFKC, then lowercase.
pub open spec fn folded(s: Seq<char>) -> Seq<char> {
    lowercase_text(nfkc_text(s))
}

/// Folds text for comparison: NFKC, then lowercase.
///
/// NFKC turns full-width letters and digits into their ASCII forms and
/// half-width katakana into full-width, so `ＡＢＣ`, `abc` and `ABC` compare
/// equal and a name typed with the IME still on finds its target.
pub fn fold(text: &str) -> (r: String)
    ensures
        r@ == folded(text@),
{
    let normal = nfkc(text);
    to_lowercase(normal.as_str())
}

/// The ASCII form of a full-width syntax character, or the character itself.
pub open spec fn spec_syntax_char(ch: char) -> char {
    if ch == '＠' {
        '@'
    } else if ch == '＃' {
        '#'
    } else if ch == '（' {
        '('
    } else if ch == '）' {
        ')'
    } else if ch == '｜' {
        '|'
    } else if ch == '＂' || ch == '“' || ch == '”' {
        '"'
    } else if ch == '．' {
        '.'
    } else if ch == '：' {
        ':'
    } else if ch == '－' {
        '-'
    } else if ch == '＊' {
        '*'
    } else {
        ch
    }
}

/// Maps the full-width forms of the syntax characters to ASCII.
///
/// Applied to single characters while tokenising, so the byte offsets of the
/// original text stay valid.
pub fn syntax_char(ch: char) -> (r: char)
    ensures
        r == spec_syntax_char(ch),
{
    if ch == '＠' {
        '@'
    } else if ch == '＃' {
        '#'
    } else if ch == '（' {
        '('
    } else if ch == '）' {
        ')'
    } else if ch == '｜' {
        '|'
    } else if ch == '＂' || ch == '“' || ch == '”' {
        '"'
    } else if ch == '．' {
        '.'
    } else if ch == '：' {
        ':'
    } else if ch == '－' {
        '-'
    } else if ch == '＊' {
        '*'
    } else {
        ch
    }
}

/// Whitespace, or one of the grouping and OR symbols.
pub open spec fn spec_is_word_break(ch: char) -> bool {
    is_white_space(ch) || spec_syntax_char(ch) == '(' || spec_syntax_char(ch) == ')'
        || spec_syntax_char(ch) == '|'
}

/// Whether `ch` ends a word: whitespace (including the ideographic space) or
/// one of the grouping and OR symbols.
pub fn is_word_break(ch: char) -> (r: bool)
    ensures
        r == spec_is_word_break(ch),
{
    if is_whitespace(ch) {
        return true;
    }
    let s = syntax_char(ch);
    s == '(' || s == ')' || s == '|'
}

/// A character that would split or change a name written unquoted.
pub open spec fn forces_quotes(ch: char) -> bool {
    spec_is_word_break(ch) || spec_syntax_char(ch) == '@' || spec_syntax_char(ch) == '#'
        || spec_syntax_char(ch) == '"' || spec_syntax_char(ch) == '.'
        || spec_syntax_char(ch) == ':' || spec_syntax_char(ch) == '*'
}

/// Whether `name` is one of the words the lexer reads as an operator.
pub open spec fn is_operator_word(name: Seq<char>) -> bool {
    name == seq!['A', 'N', 'D'] || name == seq!['O', 'R'] || name == seq!['N', 'O', 'T']
}

/// Whether a name has to be quoted to be read back as written.
pub open spec fn needs_quotes(name: Seq<char>) -> bool {
    ||| name.len() == 0
    ||| is_operator_word(name)
    ||| name[0] == '-'
    ||| name[0] == '{'
    ||| exists|i: int| 0 <= i < name.len() && forces_quotes(#[trigger] name[i])
}

/// `name` with every backslash and every double quote mark the lexer reads
/// (`"`, `＂`, `“`, `”`) escaped by a backslash.
pub open spec fn escaped(name: Seq<char>) -> Seq<char>
    decreases name.len(),
{
    if name.len() == 0 {
        Seq::empty()
    } else {
        let last = name.last();
        escaped(name.drop_last()) + if last == '\\' || spec_syntax_char(last) == '"' {
            seq!['\\', last]
        } else {
            seq![last]
        }
    }
}

/// What [`quote_if_needed`] writes for `name`.
pub open spec fn quoted_name(name: Seq<char>) -> Seq<char> {
    if needs_quotes(name) {
        seq!['"'] + escaped(name) + seq!['"']
    } else {
        name
    }
}

fn is_operator(name: &str) -> (r: bool)
    ensures
        r == is_operator_word(name@),
{
    proof {
        reveal_strlit("AND");
        reveal_strlit("OR");
        reveal_strlit("NOT");
    }
    let r = same_text(name, "AND") || same_text(name, "OR") || same_text(name, "NOT");
    proof {
        assert("AND"@ =~= seq!['A', 'N', 'D']);
        assert("OR"@ =~= seq!['O', 'R']);
        assert("NOT"@ =~= seq!['N', 'O', 'T']);
    }
    r
}

/// Quotes a name when writing it into the search box would split or change it.
pub fn quote_if_needed(name: &str) -> (r: String)
    ensures
        r@ == quoted_name(name@),
{
    let chars = chars_of(name);
    let n = chars.len();
    let mut needs = n == 0 || is_operator(name);
    if n > 0 && (chars[0] == '-' || chars[0] == '{') {
        needs = true;
    }
    let mut i: usize = 0;
    while i < n && !needs
        invariant
            chars@ == name@,
            n == chars@.len(),
            i <= n,
            !needs ==> forall|k: int| 0 <= k < i ==> !forces_quotes(#[trigger] chars@[k]),
            needs ==> needs_quotes(name@),
            !needs ==> !(name@.len() == 0 || is_operator_word(name@) || name@[0] == '-'
                || name@[0] == '{'),
        decreases n - i,
    {
        let ch = chars[i];
        let s = syntax_char(ch);
        if is_word_break(ch) || s == '@' || s == '#' || s == '"' || s == '.' || s == ':' || s
            == '*' {
            needs = true;
        }
        i = i + 1;
    }
    if !needs {
        return string_of(&chars);
    }
    let mut out = String::new();
    push_char(&mut out, '"');
    let mut j: usize = 0;
    while j < n
        invariant
            chars@ == name@,
            n == chars@.len(),
            j <= n,
            out@ == seq!['"'] + escaped(chars@.take(j as int)),
        decreases n - j,
    {
        let ch = chars[j];
        proof {
            assert(chars@.take(j + 1).drop_last() =~= chars@.take(j as int));
        }
        if ch == '\\' || syntax_char(ch) == '"' {
            push_char(&mut out, '\\');
        }
        push_char(&mut out, ch);
        j = j + 1;
        assert(out@ =~= seq!['"'] + escaped(chars@.take(j as int)));
    }
    push_char(&mut out, '"');
    assert(chars@.take(n as int) =~= chars@);
    out
}

} // verus!
