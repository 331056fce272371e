//! Splits search text into tokens and reads each word as a search term.
//!
//! Every token keeps its byte range in the text it came from, so the caller can
//! replace a single token (a suggestion being picked, a name being bound to its
//! target) without re-serialising the rest of what the user typed.

use vstd::prelude::*;
use std::ops::Range;
use crate::search::normalize::{
    escaped, fold, folded, forces_quotes, is_word_break, needs_quotes, quoted_name, spec_is_word_break,
    spec_syntax_char, syntax_char,
};
use crate::search::vocabulary::{parse_field, parse_kind, RefKind, TextField};
use crate::text::{byte_len, char_width, chars_of, is_white_space, is_whitespace, lemma_byte_len_take, push_char, range_is, string_of, string_of_range};

verus! {

#[derive(Debug, Clone, Copy, PartialEq, Eq, Structural)]
pub enum TokenKind {
    LParen,
    RParen,
    Or,
    And,
    Not,
    Word,
}

#[derive(Debug, PartialEq, Eq)]
pub struct Token {
    pub kind: TokenKind,
    /// Byte range in the text that was tokenised.
    pub span: Range<usize>,
}

impl Clone for Token {
    fn clone(&self) -> (r: Self)
        ensures
            r == *self,
    {
        Token { kind: self.kind, span: self.span.start..self.span.end }
    }
}

/// A token with its range counted in chars.
#[derive(Debug, Clone, Copy, PartialEq, Eq, Structural)]
pub struct CharToken {
    pub kind: TokenKind,
    pub start: usize,
    pub end: usize,
}

pub open spec fn is_quote(ch: char) -> bool {
    spec_syntax_char(ch) == '"'
}

/// Where a word scanned from `j` ends, given whether the scan is inside a
/// quote and whether the previous char was an escaping backslash there.
pub open spec fn scan_word(t: Seq<char>, j: int, quoted: bool, escaped: bool) -> int
    decreases t.len() - j,
{
    if j < 0 || j >= t.len() {
        t.len() as int
    } else {
        let ch = t[j];
        if quoted {
            if escaped {
                scan_word(t, j + 1, true, false)
            } else if ch == '\\' {
                scan_word(t, j + 1, true, true)
            } else if is_quote(ch) {
                scan_word(t, j + 1, false, false)
            } else {
                scan_word(t, j + 1, true, false)
            }
        } else if is_quote(ch) {
            scan_word(t, j + 1, true, false)
        } else if spec_is_word_break(ch) {
            j
        } else {
            scan_word(t, j + 1, false, false)
        }
    }
}

/// Where the word starting at `start` ends: breaks inside quotes do not count.
pub open spec fn word_end_at(t: Seq<char>, start: int) -> int {
    scan_word(t, start, false, false)
}

pub proof fn lemma_scan_word_bounds(t: Seq<char>, j: int, quoted: bool, escaped: bool)
    requires
        0 <= j <= t.len(),
    ensures
        j <= scan_word(t, j, quoted, escaped) <= t.len(),
    decreases t.len() - j,
{
    if j < t.len() {
        lemma_scan_word_bounds(t, j + 1, true, false);
        lemma_scan_word_bounds(t, j + 1, true, true);
        lemma_scan_word_bounds(t, j + 1, false, false);
    }
}

/// The kind of a word token: the upper-case operator words, or a plain word.
pub open spec fn word_kind(w: Seq<char>) -> TokenKind {
    if w == seq!['A', 'N', 'D'] {
        TokenKind::And
    } else if w == seq!['O', 'R'] {
        TokenKind::Or
    } else if w == seq!['N', 'O', 'T'] {
        TokenKind::Not
    } else {
        TokenKind::Word
    }
}

/// The tokens of `t` from char `i` on, with char ranges.
pub open spec fn tokens_from(t: Seq<char>, i: int) -> Seq<CharToken>
    decreases t.len() - i,
{
    if i < 0 || i >= t.len() {
        Seq::empty()
    } else {
        let ch = t[i];
        let s = spec_syntax_char(ch);
        if is_white_space(ch) {
            tokens_from(t, i + 1)
        } else if s == '(' || s == ')' || s == '|' {
            let kind = if s == '(' {
                TokenKind::LParen
            } else if s == ')' {
                TokenKind::RParen
            } else {
                TokenKind::Or
            };
            seq![CharToken { kind, start: i as usize, end: (i + 1) as usize }] + tokens_from(
                t,
                i + 1,
            )
        } else if s == '-' {
            if i + 1 < t.len() && !spec_is_word_break(t[i + 1]) {
                seq![CharToken { kind: TokenKind::Not, start: i as usize, end: (i + 1) as usize }]
                    + tokens_from(t, i + 1)
            } else {
                tokens_from(t, i + 1)
            }
        } else {
            let e = word_end_at(t, i);
            proof {
                lemma_scan_word_bounds(t, i, false, false);
            }
            if e <= i {
                Seq::empty()
            } else {
                seq![
                    CharToken {
                        kind: word_kind(t.subrange(i, e)),
                        start: i as usize,
                        end: e as usize,
                    },
                ] + tokens_from(t, e)
            }
        }
    }
}

/// The tokens of `t`, with char ranges.
pub open spec fn char_tokens_of(t: Seq<char>) -> Seq<CharToken> {
    tokens_from(t, 0)
}

/// A char token as the byte range it covers in `t`.
pub open spec fn byte_token(t: Seq<char>, tok: CharToken) -> (TokenKind, int, int) {
    (tok.kind, byte_len(t.take(tok.start as int)) as int, byte_len(t.take(tok.end as int)) as int)
}

/// The view of a token: its kind and byte range.
pub open spec fn token_view(tok: Token) -> (TokenKind, int, int) {
    (tok.kind, tok.span.start as int, tok.span.end as int)
}

/// Every token lies inside the text, in order, each starting at or after `from`.
pub open spec fn tokens_in_bounds(toks: Seq<CharToken>, from: int, len: int) -> bool {
    forall|k: int|
        0 <= k < toks.len() ==> from <= #[trigger] toks[k].start < toks[k].end <= len
}

pub proof fn lemma_tokens_from_bounds(t: Seq<char>, i: int)
    requires
        0 <= i <= t.len(),
        t.len() <= usize::MAX,
    ensures
        tokens_in_bounds(tokens_from(t, i), i, t.len() as int),
    decreases t.len() - i,
{
    if i < t.len() {
        lemma_tokens_from_bounds(t, i + 1);
        lemma_scan_word_bounds(t, i, false, false);
        let e = word_end_at(t, i);
        if i < e {
            lemma_tokens_from_bounds(t, e);
        }
        let toks = tokens_from(t, i);
        assert forall|k: int| 0 <= k < toks.len() implies i <= #[trigger] toks[k].start
            < toks[k].end <= t.len() by {
            let ch = t[i];
            let s = spec_syntax_char(ch);
            if !is_white_space(ch) && (s == '(' || s == ')' || s == '|' || (s == '-' && i + 1
                < t.len() && !spec_is_word_break(t[i + 1]))) {
                if k > 0 {
                    assert(toks[k] == tokens_from(t, i + 1)[k - 1]);
                }
            } else if !is_white_space(ch) && s != '-' && i < e {
                if k > 0 {
                    assert(toks[k] == tokens_from(t, e)[k - 1]);
                }
            }
        }
    }
}

/// Each token ends before the next one starts.
pub open spec fn tokens_ordered(toks: Seq<CharToken>) -> bool {
    forall|j: int, k: int| 0 <= j < k < toks.len() ==> (#[trigger] toks[j]).end <= (#[trigger] toks[k]).start
}

pub proof fn lemma_tokens_from_ordered(t: Seq<char>, i: int)
    requires
        0 <= i <= t.len(),
        t.len() <= usize::MAX,
    ensures
        tokens_ordered(tokens_from(t, i)),
    decreases t.len() - i,
{
    if i < t.len() {
        lemma_tokens_from_ordered(t, i + 1);
        lemma_tokens_from_bounds(t, i + 1);
        lemma_scan_word_bounds(t, i, false, false);
        let e = word_end_at(t, i);
        if i < e {
            lemma_tokens_from_ordered(t, e);
            lemma_tokens_from_bounds(t, e);
        }
        let toks = tokens_from(t, i);
        let ch = t[i];
        let s = spec_syntax_char(ch);
        if !is_white_space(ch) && (s == '(' || s == ')' || s == '|' || (s == '-' && i + 1 < t.len()
            && !spec_is_word_break(t[i + 1]))) {
            let rest = tokens_from(t, i + 1);
            assert forall|j: int, k: int| 0 <= j < k < toks.len() implies (#[trigger] toks[j]).end
                <= (#[trigger] toks[k]).start by {
                assert(toks[k] == rest[k - 1]);
                if j > 0 {
                    assert(toks[j] == rest[j - 1]);
                }
            }
        } else if !is_white_space(ch) && s != '-' && i < e {
            let rest = tokens_from(t, e);
            assert forall|j: int, k: int| 0 <= j < k < toks.len() implies (#[trigger] toks[j]).end
                <= (#[trigger] toks[k]).start by {
                assert(toks[k] == rest[k - 1]);
                if j > 0 {
                    assert(toks[j] == rest[j - 1]);
                }
            }
        }
    }
}

/// Where the word starting at `start` ends.
fn word_end(chars: &Vec<char>, start: usize) -> (e: usize)
    requires
        start <= chars@.len(),
    ensures
        e == word_end_at(chars@, start as int),
{
    let n = chars.len();
    let mut j = start;
    let mut quoted = false;
    let mut escaped = false;
    while j < n
        invariant
            n == chars@.len(),
            start <= j <= n,
            scan_word(chars@, j as int, quoted, escaped) == word_end_at(chars@, start as int),
            !quoted ==> !escaped,
        decreases n - j,
    {
        let ch = chars[j];
        let is_q = syntax_char(ch) == '"';
        if quoted {
            if escaped {
                escaped = false;
            } else if ch == '\\' {
                escaped = true;
            } else if is_q {
                quoted = false;
            }
        } else if is_q {
            quoted = true;
        } else if is_word_break(ch) {
            return j;
        }
        j = j + 1;
    }
    n
}

/// The tokens of `chars`, with char ranges.
pub fn char_tokens(chars: &Vec<char>) -> (r: Vec<CharToken>)
    ensures
        r@ == char_tokens_of(chars@),
        tokens_in_bounds(r@, 0, chars@.len() as int),
{
    let n = chars.len();
    let mut tokens: Vec<CharToken> = Vec::new();
    let mut i: usize = 0;
    proof {
        lemma_tokens_from_bounds(chars@, 0);
    }
    while i < n
        invariant
            n == chars@.len(),
            i <= n,
            tokens@ + tokens_from(chars@, i as int) == char_tokens_of(chars@),
        decreases n - i,
    {
        let ghost old_tokens = tokens@;
        let ch = chars[i];
        let s = syntax_char(ch);
        if is_whitespace(ch) {
            i = i + 1;
        } else if s == '(' || s == ')' || s == '|' {
            let kind = if s == '(' {
                TokenKind::LParen
            } else if s == ')' {
                TokenKind::RParen
            } else {
                TokenKind::Or
            };
            tokens.push(CharToken { kind, start: i, end: i + 1 });
            i = i + 1;
            assert(tokens@ + tokens_from(chars@, i as int) =~= old_tokens + tokens_from(
                chars@,
                (i - 1) as int,
            ));
        } else if s == '-' {
            if i + 1 < n && !is_word_break(chars[i + 1]) {
                tokens.push(CharToken { kind: TokenKind::Not, start: i, end: i + 1 });
                i = i + 1;
                assert(tokens@ + tokens_from(chars@, i as int) =~= old_tokens + tokens_from(
                    chars@,
                    (i - 1) as int,
                ));
            } else {
                i = i + 1;
            }
        } else {
            let e = word_end(chars, i);
            proof {
                lemma_scan_word_bounds(chars@, i + 1, true, false);
                lemma_scan_word_bounds(chars@, i + 1, false, false);
            }
            let kind = if range_is(chars, i, e, "AND") {
                TokenKind::And
            } else if range_is(chars, i, e, "OR") {
                TokenKind::Or
            } else if range_is(chars, i, e, "NOT") {
                TokenKind::Not
            } else {
                TokenKind::Word
            };
            proof {
                reveal_strlit("AND");
                reveal_strlit("OR");
                reveal_strlit("NOT");
                assert("AND"@ =~= seq!['A', 'N', 'D']);
                assert("OR"@ =~= seq!['O', 'R']);
                assert("NOT"@ =~= seq!['N', 'O', 'T']);
            }
            tokens.push(CharToken { kind, start: i, end: e });
            let ghost old_i = i;
            i = e;
            assert(tokens@ + tokens_from(chars@, i as int) =~= old_tokens + tokens_from(
                chars@,
                old_i as int,
            ));
        }
    }
    proof {
        assert(tokens_from(chars@, n as int) =~= Seq::<CharToken>::empty());
        assert(tokens@ =~= char_tokens_of(chars@));
    }
    tokens
}

/// Byte offsets of every char boundary of `chars`: `offsets[i]` is where char `i` starts.
pub fn byte_offsets(chars: &Vec<char>) -> (r: Vec<usize>)
    requires
        byte_len(chars@) <= usize::MAX,
    ensures
        r@.len() == chars@.len() + 1,
        forall|i: int| 0 <= i <= chars@.len() ==> #[trigger] r@[i] == byte_len(chars@.take(i)),
{
    let n = chars.len();
    let mut r: Vec<usize> = Vec::new();
    r.push(0);
    let mut i: usize = 0;
    let mut offset: usize = 0;
    assert(chars@.take(0) =~= Seq::<char>::empty());
    while i < n
        invariant
            n == chars@.len(),
            byte_len(chars@) <= usize::MAX,
            i <= n,
            offset == byte_len(chars@.take(i as int)),
            r@.len() == i + 1,
            forall|k: int| 0 <= k <= i ==> #[trigger] r@[k] == byte_len(chars@.take(k)),
        decreases n - i,
    {
        proof {
            lemma_byte_len_take(chars@, i as int, i as int);
            lemma_byte_len_take(chars@, (i + 1) as int, (i + 1) as int);
            assert(chars@.take(n as int) =~= chars@);
        }
        offset = offset + char_width(chars[i]);
        i = i + 1;
        r.push(offset);
    }
    r
}

/// Tokenises `text`. Never fails: anything unexpected becomes a word.
pub fn tokenize(text: &str) -> (r: Vec<Token>)
    requires
        byte_len(text@) <= usize::MAX,
    ensures
        r@.map_values(|tok: Token| token_view(tok)) == char_tokens_of(text@).map_values(
            |tok: CharToken| byte_token(text@, tok),
        ),
{
    let chars = chars_of(text);
    let toks = char_tokens(&chars);
    let offsets = byte_offsets(&chars);
    let mut out: Vec<Token> = Vec::new();
    let mut k: usize = 0;
    while k < toks.len()
        invariant
            chars@ == text@,
            toks@ == char_tokens_of(text@),
            tokens_in_bounds(toks@, 0, chars@.len() as int),
            offsets@.len() == chars@.len() + 1,
            forall|i: int| 0 <= i <= chars@.len() ==> #[trigger] offsets@[i] == byte_len(chars@.take(i)),
            k <= toks@.len(),
            out@.len() == k,
            forall|j: int| 0 <= j < k ==> token_view(#[trigger] out@[j]) == byte_token(text@, toks@[j]),
        decreases toks@.len() - k,
    {
        let tok = toks[k];
        assert(0 <= tok.start < tok.end <= chars@.len());
        out.push(Token { kind: tok.kind, span: offsets[tok.start]..offsets[tok.end] });
        k = k + 1;
    }
    assert(out@.map_values(|tok: Token| token_view(tok)) =~= char_tokens_of(text@).map_values(
        |tok: CharToken| byte_token(text@, tok),
    ));
    out
}


/// What a single word means, before any name is looked up.
#[derive(Debug, Clone, PartialEq, Eq)]
pub enum RawTerm {
    /// Free text, folded.
    Text(String),
    /// A tag prefix, folded.
    Tag(String),
    /// `@task:` and friends: a partial match on one text field, folded.
    Field(TextField, String),
    /// An `@` word naming a due date, a state, a project, a list or a user.
    At(AtWord),
    /// Nothing to search for (`@`, `#`, an empty quote).
    Ignore,
}

/// An `@` word, split into its parts but not yet resolved.
#[derive(Debug, Clone, PartialEq, Eq)]
pub struct AtWord {
    /// Set by `@<kind>:`.
    pub kind: Option<RefKind>,
    /// Name parts separated by unquoted dots, unquoted but not folded.
    pub parts: Vec<String>,
    /// Whether any part was quoted. A quoted name is never a keyword.
    pub quoted: bool,
    /// Whether an unquoted `*` makes this a pattern.
    pub wildcard: bool,
    /// `{…}` after a kind: an id written by the internal query.
    pub id: Option<String>,
}

/// The value of an [`AtWord`].
pub struct AtWordView {
    pub kind: Option<RefKind>,
    pub parts: Seq<Seq<char>>,
    pub quoted: bool,
    pub wildcard: bool,
    pub id: Option<Seq<char>>,
}

/// The value of a [`RawTerm`].
pub enum RawTermView {
    Text(Seq<char>),
    Tag(Seq<char>),
    Field(TextField, Seq<char>),
    At(AtWordView),
    Ignore,
}

pub open spec fn strings_view(v: Seq<String>) -> Seq<Seq<char>> {
    v.map_values(|s: String| s@)
}

pub open spec fn opt_string_view(o: Option<String>) -> Option<Seq<char>> {
    match o {
        Some(s) => Some(s@),
        None => None,
    }
}

impl View for AtWord {
    type V = AtWordView;

    open spec fn view(&self) -> AtWordView {
        AtWordView {
            kind: self.kind,
            parts: strings_view(self.parts@),
            quoted: self.quoted,
            wildcard: self.wildcard,
            id: opt_string_view(self.id),
        }
    }
}

impl View for RawTerm {
    type V = RawTermView;

    open spec fn view(&self) -> RawTermView {
        match self {
            RawTerm::Text(s) => RawTermView::Text(s@),
            RawTerm::Tag(s) => RawTermView::Tag(s@),
            RawTerm::Field(f, s) => RawTermView::Field(*f, s@),
            RawTerm::At(w) => RawTermView::At(w@),
            RawTerm::Ignore => RawTermView::Ignore,
        }
    }
}

/// `parts` joined with dots.
pub open spec fn join_dots(parts: Seq<Seq<char>>) -> Seq<char>
    decreases parts.len(),
{
    if parts.len() == 0 {
        Seq::empty()
    } else if parts.len() == 1 {
        parts[0]
    } else {
        join_dots(parts.drop_last()) + seq!['.'] + parts.last()
    }
}

impl AtWord {
    /// The parts joined back into one name, e.g. for a project called `v1.2`.
    pub fn whole_name(&self) -> (r: String)
        ensures
            r@ == join_dots(self@.parts),
    {
        let mut out = String::new();
        let mut i: usize = 0;
        while i < self.parts.len()
            invariant
                i <= self.parts@.len(),
                out@ == join_dots(strings_view(self.parts@).take(i as int)),
            decreases self.parts@.len() - i,
        {
            proof {
                assert(strings_view(self.parts@).take(i + 1).drop_last() =~= strings_view(
                    self.parts@,
                ).take(i as int));
            }
            if i > 0 {
                push_char(&mut out, '.');
            }
            crate::text::push_str(&mut out, self.parts[i].as_str());
            i = i + 1;
            proof {
                if i == 1 {
                    assert(out@ =~= join_dots(strings_view(self.parts@).take(i as int)));
                } else {
                    assert(out@ =~= join_dots(strings_view(self.parts@).take(i as int)));
                }
            }
        }
        assert(strings_view(self.parts@).take(self.parts@.len() as int) =~= strings_view(
            self.parts@,
        ));
        out
    }
}

/// The text inside quotes read from the start of `t`, up to the closing quote.
pub open spec fn unquote_body(t: Seq<char>, escaped: bool) -> Seq<char>
    decreases t.len(),
{
    if t.len() == 0 {
        Seq::empty()
    } else {
        let ch = t[0];
        if escaped {
            seq![ch] + unquote_body(t.drop_first(), false)
        } else if ch == '\\' {
            unquote_body(t.drop_first(), true)
        } else if is_quote(ch) {
            Seq::empty()
        } else {
            seq![ch] + unquote_body(t.drop_first(), false)
        }
    }
}

/// `t` without its surrounding quotes and escapes, if it is quoted.
pub open spec fn unquoted(t: Seq<char>) -> Seq<char> {
    if t.len() > 0 && is_quote(t[0]) {
        unquote_body(t.drop_first(), false)
    } else {
        t
    }
}

/// Removes surrounding quotes and escapes, if `chars[from..]` is quoted.
fn unquote(chars: &Vec<char>, from: usize) -> (r: String)
    requires
        from <= chars@.len(),
    ensures
        r@ == unquoted(chars@.skip(from as int)),
{
    let n = chars.len();
    if from == n || syntax_char(chars[from]) != '"' {
        assert(chars@.subrange(from as int, n as int) =~= chars@.skip(from as int));
        return string_of_range(chars, from, n);
    }
    let mut out = String::new();
    let mut escaped = false;
    let mut i = from + 1;
    proof {
        assert(chars@.skip(from as int).drop_first() =~= chars@.skip(i as int));
    }
    while i < n
        invariant
            n == chars@.len(),
            from < i <= n,
            out@ + unquote_body(chars@.skip(i as int), escaped) == unquoted(chars@.skip(from as int)),
        decreases n - i,
    {
        let ch = chars[i];
        proof {
            assert(chars@.skip(i as int).drop_first() =~= chars@.skip(i + 1));
        }
        if escaped {
            push_char(&mut out, ch);
            escaped = false;
        } else if ch == '\\' {
            escaped = true;
        } else if syntax_char(ch) == '"' {
            proof {
                assert(out@ + Seq::<char>::empty() =~= out@);
            }
            return out;
        } else {
            push_char(&mut out, ch);
        }
        i = i + 1;
        proof {
            assert(out@ + unquote_body(chars@.skip(i as int), escaped) =~= unquoted(
                chars@.skip(from as int),
            ));
        }
    }
    proof {
        assert(out@ + Seq::<char>::empty() =~= out@);
    }
    out
}

/// The state of [`split_name`] after reading some chars: finished parts, the
/// part being read, and the quoting flags.
#[verifier::ext_equal]
pub struct SplitState {
    pub done: Seq<Seq<char>>,
    pub current: Seq<char>,
    pub quoted: bool,
    pub any_quoted: bool,
    pub wildcard: bool,
    pub escaping: bool,
}

pub open spec fn split_step(st: SplitState, ch: char) -> SplitState {
    if st.escaping {
        SplitState { current: st.current.push(ch), escaping: false, ..st }
    } else if st.quoted {
        if ch == '\\' {
            SplitState { escaping: true, ..st }
        } else if is_quote(ch) {
            SplitState { quoted: false, ..st }
        } else {
            SplitState { current: st.current.push(ch), ..st }
        }
    } else {
        let s = spec_syntax_char(ch);
        if s == '"' {
            SplitState { quoted: true, any_quoted: true, ..st }
        } else if s == '.' {
            SplitState { done: st.done.push(st.current), current: Seq::empty(), ..st }
        } else if s == '*' {
            SplitState { current: st.current.push('*'), wildcard: true, ..st }
        } else {
            SplitState { current: st.current.push(ch), ..st }
        }
    }
}

pub open spec fn split_scan(t: Seq<char>) -> SplitState
    decreases t.len(),
{
    if t.len() == 0 {
        SplitState {
            done: Seq::empty(),
            current: Seq::empty(),
            quoted: false,
            any_quoted: false,
            wildcard: false,
            escaping: false,
        }
    } else {
        split_step(split_scan(t.drop_last()), t.last())
    }
}

/// The `@` word `t` splits into: parts at unquoted dots, quotes removed, and a
/// trailing empty part dropped when there are others.
pub open spec fn split_name_of(t: Seq<char>) -> AtWordView {
    let st = split_scan(t);
    let parts = if st.done.len() > 0 && st.current.len() == 0 {
        st.done
    } else {
        st.done.push(st.current)
    };
    AtWordView { kind: None, parts, quoted: st.any_quoted, wildcard: st.wildcard, id: None }
}

/// Splits `chars[from..]` at unquoted dots and removes the quotes.
fn split_name(chars: &Vec<char>, from: usize) -> (r: AtWord)
    requires
        from <= chars@.len(),
    ensures
        r@ == split_name_of(chars@.skip(from as int)),
{
    let ghost t = chars@.skip(from as int);
    let n = chars.len();
    let mut done: Vec<String> = Vec::new();
    let mut current = String::new();
    let mut quoted = false;
    let mut any_quoted = false;
    let mut wildcard = false;
    let mut escaping = false;
    let mut i = from;
    proof {
        assert(t.take(0) =~= Seq::<char>::empty());
        assert(strings_view(done@) =~= Seq::<Seq<char>>::empty());
    }
    while i < n
        invariant
            n == chars@.len(),
            t == chars@.skip(from as int),
            from <= i <= n,
            split_scan(t.take(i - from)) == (SplitState {
                done: strings_view(done@),
                current: current@,
                quoted,
                any_quoted,
                wildcard,
                escaping,
            }),
        decreases n - i,
    {
        let ch = chars[i];
        let ghost old_done = done@;
        proof {
            assert(t.take(i + 1 - from).drop_last() =~= t.take(i - from));
            assert(t.take(i + 1 - from).last() == ch);
        }
        if escaping {
            push_char(&mut current, ch);
            escaping = false;
        } else if quoted {
            if ch == '\\' {
                escaping = true;
            } else if syntax_char(ch) == '"' {
                quoted = false;
            } else {
                push_char(&mut current, ch);
            }
        } else {
            let s = syntax_char(ch);
            if s == '"' {
                quoted = true;
                any_quoted = true;
            } else if s == '.' {
                let part = current;
                done.push(part);
                current = String::new();
                assert(strings_view(done@) =~= strings_view(old_done).push(done@.last()@));
            } else if s == '*' {
                push_char(&mut current, '*');
                wildcard = true;
            } else {
                push_char(&mut current, ch);
            }
        }
        i = i + 1;
        assert(split_scan(t.take(i - from)) =~= (SplitState {
            done: strings_view(done@),
            current: current@,
            quoted,
            any_quoted,
            wildcard,
            escaping,
        }));
    }
    proof {
        assert(t.take(n - from) =~= t);
    }
    let keep_current = done.len() == 0 || current.as_str().unicode_len() > 0;
    if keep_current {
        let ghost before = done@;
        done.push(current);
        assert(strings_view(done@) =~= strings_view(before).push(done@.last()@));
    }
    AtWord { kind: None, parts: done, quoted: any_quoted, wildcard, id: None }
}


/// The first position at or after `i` holding a colon (in either width), or the length.
pub open spec fn first_colon(t: Seq<char>, i: int) -> int
    decreases t.len() - i,
{
    if i < 0 || i >= t.len() {
        t.len() as int
    } else if spec_syntax_char(t[i]) == ':' {
        i
    } else {
        first_colon(t, i + 1)
    }
}

/// `<kind>:<value>` split at the first colon, unless the text starts with a
/// quote or a quote comes before the colon.
pub open spec fn kind_split(t: Seq<char>) -> Option<(Seq<char>, Seq<char>)> {
    let c = first_colon(t, 0);
    if t.len() > 0 && t[0] == '"' {
        None
    } else if c >= t.len() {
        None
    } else if t.take(c).contains('"') {
        None
    } else {
        Some((t.take(c), t.skip(c + 1)))
    }
}

/// Splits `chars[from..]` at its first unquoted colon: the prefix, and where the value starts.
fn split_kind(chars: &Vec<char>, from: usize) -> (r: Option<(String, usize)>)
    requires
        from <= chars@.len(),
    ensures
        match r {
            Some((prefix, at)) => from < at <= chars@.len() && kind_split(chars@.skip(from as int))
                == Some((prefix@, chars@.skip(at as int))),
            None => kind_split(chars@.skip(from as int)) is None,
        },
{
    let ghost t = chars@.skip(from as int);
    let n = chars.len();
    if from < n && chars[from] == '"' {
        return None;
    }
    let mut i = from;
    let mut quote_seen = false;
    while i < n && syntax_char(chars[i]) != ':'
        invariant
            n == chars@.len(),
            t == chars@.skip(from as int),
            from <= i <= n,
            first_colon(t, i - from) == first_colon(t, 0),
            quote_seen == t.take(i - from).contains('"'),
        decreases n - i,
    {
        proof {
            assert(t.take(i + 1 - from) =~= t.take(i - from).push(chars@[i as int]));
        }
        if chars[i] == '"' {
            quote_seen = true;
            assert(t.take(i + 1 - from)[i - from] == '"');
        }
        i = i + 1;
    }
    if i == n || quote_seen {
        return None;
    }
    proof {
        assert(t.skip(i + 1 - from) =~= chars@.skip(i + 1));
        assert(chars@.subrange(from as int, i as int) =~= t.take(i - from));
    }
    Some((string_of_range(chars, from, i), i + 1))
}

/// An `@` word after `@<kind>:`: the id written by the internal query when
/// the only part is an unquoted `{…}`.
pub open spec fn with_kind(w: AtWordView, kind: RefKind) -> AtWordView {
    let id = if !w.quoted && w.parts.len() == 1 && w.parts[0].len() > 2 && w.parts[0][0] == '{'
        && w.parts[0].last() == '}' {
        Some(w.parts[0].subrange(1, w.parts[0].len() - 1))
    } else {
        None
    };
    AtWordView { kind: Some(kind), id, ..w }
}

/// What the text after an `@` means.
pub open spec fn read_at_of(rest: Seq<char>) -> RawTermView {
    if rest.len() == 0 {
        RawTermView::Ignore
    } else {
        match kind_split(rest) {
            Some((prefix, value)) => match parse_field(folded(prefix)) {
                Some(field) => {
                    let v = unquoted(value);
                    if v.len() == 0 {
                        RawTermView::Ignore
                    } else {
                        RawTermView::Field(field, folded(v))
                    }
                },
                None => match parse_kind(folded(prefix)) {
                    Some(kind) => if value.len() == 0 {
                        RawTermView::Ignore
                    } else {
                        RawTermView::At(with_kind(split_name_of(value), kind))
                    },
                    None => RawTermView::At(split_name_of(rest)),
                },
            },
            None => RawTermView::At(split_name_of(rest)),
        }
    }
}

/// What one word token means.
pub open spec fn read_term_of(w: Seq<char>) -> RawTermView {
    if w.len() == 0 {
        RawTermView::Ignore
    } else {
        let s = spec_syntax_char(w[0]);
        if s == '#' {
            let tag = unquoted(w.drop_first());
            if tag.len() == 0 {
                RawTermView::Ignore
            } else {
                RawTermView::Tag(folded(tag))
            }
        } else if s == '@' {
            read_at_of(w.drop_first())
        } else {
            let text = unquoted(w);
            if text.len() == 0 {
                RawTermView::Ignore
            } else {
                RawTermView::Text(folded(text))
            }
        }
    }
}

fn read_at(chars: &Vec<char>, from: usize) -> (r: RawTerm)
    requires
        from <= chars@.len(),
    ensures
        r@ == read_at_of(chars@.skip(from as int)),
{
    let n = chars.len();
    if from == n {
        return RawTerm::Ignore;
    }
    if let Some((prefix, at)) = split_kind(chars, from) {
        let prefix = fold(prefix.as_str());
        if let Some(field) = TextField::parse(prefix.as_str()) {
            let value = unquote(chars, at);
            if value.as_str().unicode_len() == 0 {
                return RawTerm::Ignore;
            }
            return RawTerm::Field(field, fold(value.as_str()));
        }
        if let Some(kind) = RefKind::parse(prefix.as_str()) {
            if at == n {
                return RawTerm::Ignore;
            }
            let mut word = split_name(chars, at);
            word.kind = Some(kind);
            if !word.quoted && word.parts.len() == 1 {
                let part = chars_of(word.parts[0].as_str());
                let m = part.len();
                if m > 2 && part[0] == '{' && part[m - 1] == '}' {
                    word.id = Some(string_of_range(&part, 1, m - 1));
                }
            }
            assert(word@ =~= with_kind(split_name_of(chars@.skip(at as int)), kind));
            return RawTerm::At(word);
        }
    }
    RawTerm::At(split_name(chars, from))
}

/// Reads one word token.
pub fn read_term(word: &str) -> (r: RawTerm)
    ensures
        r@ == read_term_of(word@),
{
    let chars = chars_of(word);
    if chars.len() == 0 {
        return RawTerm::Ignore;
    }
    let s = syntax_char(chars[0]);
    proof {
        assert(chars@.skip(1) =~= chars@.drop_first());
        assert(chars@.skip(0) =~= chars@);
    }
    if s == '#' {
        let tag = unquote(&chars, 1);
        if tag.as_str().unicode_len() == 0 {
            RawTerm::Ignore
        } else {
            RawTerm::Tag(fold(tag.as_str()))
        }
    } else if s == '@' {
        read_at(&chars, 1)
    } else {
        let text = unquote(&chars, 0);
        if text.as_str().unicode_len() == 0 {
            RawTerm::Ignore
        } else {
            RawTerm::Text(fold(text.as_str()))
        }
    }
}


proof fn lemma_split_scan_push(t: Seq<char>, c: char)
    ensures
        split_scan(t.push(c)) == split_step(split_scan(t), c),
{
    assert(t.push(c).drop_last() =~= t);
}

/// Inside an opened quote, the escaped form of a name reads back as the name.
proof fn lemma_scan_escaped(name: Seq<char>, k: int)
    requires
        0 <= k <= name.len(),
    ensures
        split_scan(seq!['"'] + escaped(name.take(k))) == (SplitState {
            done: Seq::empty(),
            current: name.take(k),
            quoted: true,
            any_quoted: true,
            wildcard: false,
            escaping: false,
        }),
    decreases k,
{
    let open = seq!['"'];
    if k == 0 {
        assert(name.take(0) =~= Seq::<char>::empty());
        assert(open + escaped(name.take(0)) =~= Seq::<char>::empty().push('"'));
        lemma_split_scan_push(Seq::<char>::empty(), '"');
    } else {
        lemma_scan_escaped(name, k - 1);
        let c = name[k - 1];
        let before = open + escaped(name.take(k - 1));
        assert(name.take(k).drop_last() =~= name.take(k - 1));
        assert(name.take(k).last() == c);
        assert(name.take(k - 1).push(c) =~= name.take(k));
        if c == '\\' || spec_syntax_char(c) == '"' {
            assert(open + escaped(name.take(k)) =~= before.push('\\').push(c));
            lemma_split_scan_push(before, '\\');
            lemma_split_scan_push(before.push('\\'), c);
        } else {
            assert(open + escaped(name.take(k)) =~= before.push(c));
            lemma_split_scan_push(before, c);
        }
    }
}

/// A name with no char that forces quotes reads back unchanged.
proof fn lemma_scan_plain(name: Seq<char>, k: int)
    requires
        0 <= k <= name.len(),
        forall|i: int| 0 <= i < name.len() ==> !forces_quotes(#[trigger] name[i]),
    ensures
        split_scan(name.take(k)) == (SplitState {
            done: Seq::empty(),
            current: name.take(k),
            quoted: false,
            any_quoted: false,
            wildcard: false,
            escaping: false,
        }),
    decreases k,
{
    if k == 0 {
        assert(name.take(0) =~= Seq::<char>::empty());
    } else {
        lemma_scan_plain(name, k - 1);
        assert(name.take(k - 1).push(name[k - 1]) =~= name.take(k));
        lemma_split_scan_push(name.take(k - 1), name[k - 1]);
        assert(!forces_quotes(name[k - 1]));
    }
}

proof fn lemma_no_colon(t: Seq<char>, i: int)
    requires
        0 <= i <= t.len(),
        forall|j: int| 0 <= j < t.len() ==> spec_syntax_char(#[trigger] t[j]) != ':',
    ensures
        first_colon(t, i) == t.len(),
    decreases t.len() - i,
{
    if i < t.len() {
        lemma_no_colon(t, i + 1);
    }
}

/// A name written after `@` the way [`quote_if_needed`] writes it reads back
/// as that one name, whole and unchanged, and counts as quoted exactly when
/// quotes were written.
///
/// [`quote_if_needed`]: crate::search::normalize::quote_if_needed
pub proof fn law_a_quoted_name_reads_back(name: Seq<char>)
    ensures
        read_term_of(seq!['@'] + quoted_name(name)) == RawTermView::At(AtWordView {
            kind: None,
            parts: seq![name],
            quoted: needs_quotes(name),
            wildcard: false,
            id: None,
        }),
{
    let w = seq!['@'] + quoted_name(name);
    let rest = quoted_name(name);
    assert(w.drop_first() =~= rest);
    if needs_quotes(name) {
        lemma_scan_escaped(name, name.len() as int);
        assert(name.take(name.len() as int) =~= name);
        let opened = seq!['"'] + escaped(name);
        assert(rest =~= opened.push('"'));
        lemma_split_scan_push(opened, '"');
        assert(rest[0] == '"');
        assert(kind_split(rest) is None);
    } else {
        assert(forall|i: int| 0 <= i < name.len() ==> !forces_quotes(#[trigger] name[i]));
        lemma_scan_plain(name, name.len() as int);
        assert(name.take(name.len() as int) =~= name);
        lemma_no_colon(name, 0);
        assert(kind_split(rest) is None);
    }
}


/// A word reads the same whichever width its leading sigil is typed in: a
/// word starting with `＃`, `＠` or a full-width or curly double quote reads
/// as the word starting with `#`, `@` or `"` followed by the same rest. So
/// `＃仕事` reads as the tag `仕事`, exactly as `#仕事` does.
pub proof fn law_a_sigil_reads_the_same_in_either_width(w: Seq<char>)
    requires
        w.len() > 0,
        spec_syntax_char(w[0]) == '#' || spec_syntax_char(w[0]) == '@' || spec_syntax_char(w[0]) == '"',
    ensures
        read_term_of(w) == read_term_of(seq![spec_syntax_char(w[0])] + w.drop_first()),
        spec_syntax_char(w[0]) == '#' ==> read_term_of(w) == (if unquoted(w.drop_first()).len() == 0 {
            RawTermView::Ignore
        } else {
            RawTermView::Tag(folded(unquoted(w.drop_first())))
        }),
{
    let v = seq![spec_syntax_char(w[0])] + w.drop_first();
    assert(v[0] == spec_syntax_char(w[0]));
    assert(v.drop_first() =~= w.drop_first());
    assert(spec_syntax_char(v[0]) == spec_syntax_char(w[0]));
    if spec_syntax_char(w[0]) == '"' {
        assert(unquoted(w) == unquote_body(w.drop_first(), false));
        assert(unquoted(v) == unquote_body(v.drop_first(), false));
    }
}


} // verus!
