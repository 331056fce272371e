//! Full-width input: the tokens of a query do not depend on the width its
//! syntax characters are typed in.

use vstd::prelude::*;
use crate::search::lexer::{char_tokens_of, lemma_scan_word_bounds, scan_word, tokens_from, word_end_at, word_kind};
use crate::search::normalize::{spec_is_word_break, spec_syntax_char};
use crate::text::is_white_space;

verus! {

/// `t` with every full-width syntax character typed in its ASCII form.
pub open spec fn ascii_syntax(t: Seq<char>) -> Seq<char> {
    t.map_values(|c: char| spec_syntax_char(c))
}

proof fn lemma_syntax_char_facts(c: char)
    ensures
        spec_syntax_char(spec_syntax_char(c)) == spec_syntax_char(c),
        is_white_space(spec_syntax_char(c)) == is_white_space(c),
        spec_is_word_break(spec_syntax_char(c)) == spec_is_word_break(c),
        (spec_syntax_char(c) == '\\') == (c == '\\'),
        spec_syntax_char(c) != c ==> !('A' <= spec_syntax_char(c) <= 'Z'),
{
    reveal(is_white_space);
}

proof fn lemma_scan_word_ascii(t: Seq<char>, j: int, quoted: bool, escaped: bool)
    ensures
        scan_word(ascii_syntax(t), j, quoted, escaped) == scan_word(t, j, quoted, escaped),
    decreases t.len() - j,
{
    if 0 <= j < t.len() {
        lemma_syntax_char_facts(t[j]);
        assert(ascii_syntax(t)[j] == spec_syntax_char(t[j]));
        lemma_scan_word_ascii(t, j + 1, true, false);
        lemma_scan_word_ascii(t, j + 1, true, true);
        lemma_scan_word_ascii(t, j + 1, false, false);
    }
}

proof fn lemma_word_kind_ascii(t: Seq<char>, i: int, e: int)
    requires
        0 <= i <= e <= t.len(),
    ensures
        word_kind(ascii_syntax(t).subrange(i, e)) == word_kind(t.subrange(i, e)),
{
    let a = ascii_syntax(t).subrange(i, e);
    let b = t.subrange(i, e);
    assert forall|k: int| 0 <= k < b.len() implies a[k] == spec_syntax_char(#[trigger] b[k]) by {
        assert(ascii_syntax(t)[i + k] == spec_syntax_char(t[i + k]));
    }
    assert forall|k: int| 0 <= k < b.len() && 'A' <= #[trigger] a[k] <= 'Z' implies a[k] == b[k] by {
        lemma_syntax_char_facts(b[k]);
    }
    assert forall|k: int| 0 <= k < b.len() && 'A' <= #[trigger] b[k] <= 'Z' implies a[k] == b[k] by {
        lemma_syntax_char_facts(b[k]);
        reveal(is_white_space);
    }
    if a == seq!['A', 'N', 'D'] || a == seq!['O', 'R'] || a == seq!['N', 'O', 'T'] {
        assert(a =~= b);
    }
    if b == seq!['A', 'N', 'D'] || b == seq!['O', 'R'] || b == seq!['N', 'O', 'T'] {
        assert forall|k: int| 0 <= k < b.len() implies a[k] == b[k] by {
            assert('A' <= b[k] <= 'Z');
        }
        assert(a =~= b);
    }
}

proof fn lemma_tokens_from_ascii(t: Seq<char>, i: int)
    ensures
        tokens_from(ascii_syntax(t), i) == tokens_from(t, i),
    decreases t.len() - i,
{
    if 0 <= i < t.len() {
        let m = ascii_syntax(t);
        assert(m[i] == spec_syntax_char(t[i]));
        lemma_syntax_char_facts(t[i]);
        lemma_tokens_from_ascii(t, i + 1);
        if i + 1 < t.len() {
            assert(m[i + 1] == spec_syntax_char(t[i + 1]));
            lemma_syntax_char_facts(t[i + 1]);
        }
        lemma_scan_word_ascii(t, i, false, false);
        let e = word_end_at(t, i);
        lemma_scan_word_bounds(t, i, false, false);
        if i < e {
            lemma_tokens_from_ascii(t, e);
            lemma_word_kind_ascii(t, i, e);
        }
    }
}

/// Typing the syntax characters full-width (with the Japanese IME on) splits
/// a query into the same tokens, of the same kinds and at the same places, as
/// typing them in ASCII.
pub proof fn law_tokens_ignore_the_width_of_syntax(t: Seq<char>)
    ensures
        char_tokens_of(ascii_syntax(t)) == char_tokens_of(t),
{
    lemma_tokens_from_ascii(t, 0);
}

} // verus!
