//! Character-level helpers: strings are read and built one `char` at a time,
//! and positions handed to callers are byte offsets into UTF-8 text.

use vstd::prelude::*;

verus! {

/// Number of bytes `c` takes in UTF-8.
pub open spec fn utf8_width(c: char) -> nat {
    if (c as u32) < 0x80 {
        1
    } else if (c as u32) < 0x800 {
        2
    } else if (c as u32) < 0x10000 {
        3
    } else {
        4
    }
}

/// Number of bytes `s` takes in UTF-8.
pub open spec fn byte_len(s: Seq<char>) -> nat
    decreases s.len(),
{
    if s.len() == 0 {
        0
    } else {
        byte_len(s.drop_last()) + utf8_width(s.last())
    }
}

/// Byte length is additive over concatenation.
pub proof fn lemma_byte_len_concat(a: Seq<char>, b: Seq<char>)
    ensures
        byte_len(a + b) == byte_len(a) + byte_len(b),
    decreases b.len(),
{
    if b.len() == 0 {
        assert(a + b =~= a);
    } else {
        lemma_byte_len_concat(a, b.drop_last());
        assert((a + b).drop_last() =~= a + b.drop_last());
    }
}

/// A longer prefix never takes fewer bytes, and each extra char takes at least one.
pub proof fn lemma_byte_len_take(s: Seq<char>, i: int, j: int)
    requires
        0 <= i <= j <= s.len(),
    ensures
        byte_len(s.take(i)) + (j - i) <= byte_len(s.take(j)),
        byte_len(s.take(j)) <= byte_len(s),
        j < s.len() ==> byte_len(s.take(j + 1)) == byte_len(s.take(j)) + utf8_width(s[j]),
{
    lemma_byte_len_concat(s.take(i), s.subrange(i, j));
    assert(s.take(i) + s.subrange(i, j) =~= s.take(j));
    lemma_byte_len_at_least_len(s.subrange(i, j));
    lemma_byte_len_concat(s.take(j), s.skip(j));
    assert(s.take(j) + s.skip(j) =~= s);
    if j < s.len() {
        assert(s.take(j + 1).drop_last() =~= s.take(j));
    }
}

pub proof fn lemma_byte_len_at_least_len(s: Seq<char>)
    ensures
        s.len() <= byte_len(s),
    decreases s.len(),
{
    if s.len() > 0 {
        lemma_byte_len_at_least_len(s.drop_last());
    }
}

/// Calls `str::len`, which counts the bytes of the UTF-8 text: the sum of its
/// chars' widths.
#[verifier::external_body]
pub(crate) fn utf8_len(s: &str) -> (n: usize)
    ensures
        n == byte_len(s@),
{
    s.len()
}

/// The UTF-8 width of one char.
pub fn char_width(c: char) -> (w: usize)
    ensures
        w == utf8_width(c),
        1 <= w <= 4,
{
    let code = c as u32;
    if code < 0x80 {
        1
    } else if code < 0x800 {
        2
    } else if code < 0x10000 {
        3
    } else {
        4
    }
}

/// The chars of `s`, in order.
pub fn chars_of(s: &str) -> (v: Vec<char>)
    ensures
        v@ == s@,
{
    let n = s.unicode_len();
    let mut v: Vec<char> = Vec::new();
    let mut i: usize = 0;
    while i < n
        invariant
            n == s@.len(),
            i <= n,
            v@ == s@.take(i as int),
        decreases n - i,
    {
        let c = s.get_char(i);
        v.push(c);
        i = i + 1;
        assert(v@ =~= s@.take(i as int));
    }
    assert(s@.take(n as int) =~= s@);
    v
}

/// Appends one char to a string.
#[verifier::external_body]
pub(crate) fn push_char(s: &mut String, c: char)
    ensures
        final(s)@ == old(s)@.push(c),
{
    s.push(c);
}

/// A string holding `chars[from..to]`.
pub fn string_of_range(chars: &[char], from: usize, to: usize) -> (s: String)
    requires
        from <= to <= chars@.len(),
    ensures
        s@ == chars@.subrange(from as int, to as int),
{
    let mut s = String::new();
    let mut i = from;
    while i < to
        invariant
            from <= i <= to <= chars@.len(),
            s@ == chars@.subrange(from as int, i as int),
        decreases to - i,
    {
        push_char(&mut s, chars[i]);
        i = i + 1;
        assert(s@ =~= chars@.subrange(from as int, i as int));
    }
    s
}

/// A string holding all of `chars`.
pub fn string_of(chars: &[char]) -> (s: String)
    ensures
        s@ == chars@,
{
    let s = string_of_range(chars, 0, chars.len());
    assert(chars@.subrange(0, chars@.len() as int) =~= chars@);
    s
}

/// Appends `t` to `s`.
pub fn push_str(s: &mut String, t: &str)
    ensures
        final(s)@ == old(s)@ + t@,
{
    s.append(t);
}

/// Whether two strings hold the same chars.
pub fn same_text(a: &str, b: &str) -> (r: bool)
    ensures
        r == (a@ == b@),
{
    let n = a.unicode_len();
    let m = b.unicode_len();
    if n != m {
        return false;
    }
    let mut i: usize = 0;
    while i < n
        invariant
            n == a@.len(),
            m == b@.len(),
            n == m,
            i <= n,
            forall|k: int| 0 <= k < i ==> a@[k] == b@[k],
        decreases n - i,
    {
        if a.get_char(i) != b.get_char(i) {
            return false;
        }
        i = i + 1;
    }
    assert(a@ =~= b@);
    true
}

/// Whether `chars[from..to]` spells `word`.
pub fn range_is(chars: &[char], from: usize, to: usize, word: &str) -> (r: bool)
    requires
        from <= to <= chars@.len(),
    ensures
        r == (chars@.subrange(from as int, to as int) == word@),
{
    let n = word.unicode_len();
    if to - from != n {
        return false;
    }
    let mut i: usize = 0;
    while i < n
        invariant
            n == word@.len(),
            to - from == n,
            from <= to <= chars@.len(),
            i <= n,
            forall|k: int| 0 <= k < i ==> chars@[from + k] == word@[k],
        decreases n - i,
    {
        if chars[from + i] != word.get_char(i) {
            return false;
        }
        i = i + 1;
    }
    assert(chars@.subrange(from as int, to as int) =~= word@);
    true
}

/// Whether `c` has Unicode's `White_Space` property: the tab through
/// carriage-return controls, the space, next line, no-break space, Ogham
/// space mark, the en quad through hair space, the line and paragraph
/// separators, the narrow no-break space, the medium mathematical space and
/// the ideographic space.
#[verifier::opaque]
pub open spec fn is_white_space(c: char) -> bool {
    ||| '\u{9}' <= c <= '\u{d}'
    ||| c == ' '
    ||| c == '\u{85}'
    ||| c == '\u{a0}'
    ||| c == '\u{1680}'
    ||| '\u{2000}' <= c <= '\u{200a}'
    ||| c == '\u{2028}'
    ||| c == '\u{2029}'
    ||| c == '\u{202f}'
    ||| c == '\u{205f}'
    ||| c == '\u{3000}'
}

/// Whether `c` is whitespace, as `char::is_whitespace` answers.
pub fn is_whitespace(c: char) -> (r: bool)
    ensures
        r == is_white_space(c),
{
    reveal(is_white_space);
    ('\u{9}' <= c && c <= '\u{d}') || c == ' ' || c == '\u{85}' || c == '\u{a0}'
        || c == '\u{1680}' || ('\u{2000}' <= c && c <= '\u{200a}') || c == '\u{2028}'
        || c == '\u{2029}' || c == '\u{202f}' || c == '\u{205f}' || c == '\u{3000}'
}


/// `s` without its leading whitespace.
pub open spec fn trim_start(s: Seq<char>) -> Seq<char>
    decreases s.len(),
{
    if s.len() > 0 && is_white_space(s[0]) {
        trim_start(s.drop_first())
    } else {
        s
    }
}

/// `s` without its trailing whitespace.
pub open spec fn trim_end(s: Seq<char>) -> Seq<char>
    decreases s.len(),
{
    if s.len() > 0 && is_white_space(s.last()) {
        trim_end(s.drop_last())
    } else {
        s
    }
}

/// `s` without surrounding whitespace, as `str::trim` gives it.
pub open spec fn trimmed(s: Seq<char>) -> Seq<char> {
    trim_end(trim_start(s))
}

/// Where the text inside `chars[from..to]` starts once leading whitespace is skipped.
pub fn skip_leading_ws(chars: &[char], from: usize, to: usize) -> (a: usize)
    requires
        from <= to <= chars@.len(),
    ensures
        from <= a <= to,
        chars@.subrange(a as int, to as int) == trim_start(chars@.subrange(from as int, to as int)),
{
    let mut a = from;
    while a < to && is_whitespace(chars[a])
        invariant
            from <= a <= to <= chars@.len(),
            trim_start(chars@.subrange(a as int, to as int)) == trim_start(
                chars@.subrange(from as int, to as int),
            ),
        decreases to - a,
    {
        assert(chars@.subrange(a as int, to as int).drop_first() =~= chars@.subrange(
            a + 1,
            to as int,
        ));
        a = a + 1;
    }
    a
}

/// Where the text inside `chars[from..to]` ends once trailing whitespace is dropped.
pub fn skip_trailing_ws(chars: &[char], from: usize, to: usize) -> (b: usize)
    requires
        from <= to <= chars@.len(),
    ensures
        from <= b <= to,
        chars@.subrange(from as int, b as int) == trim_end(chars@.subrange(from as int, to as int)),
{
    let mut b = to;
    while b > from && is_whitespace(chars[b - 1])
        invariant
            from <= b <= to <= chars@.len(),
            trim_end(chars@.subrange(from as int, b as int)) == trim_end(
                chars@.subrange(from as int, to as int),
            ),
        decreases b - from,
    {
        assert(chars@.subrange(from as int, b as int).drop_last() =~= chars@.subrange(
            from as int,
            b - 1,
        ));
        b = b - 1;
    }
    b
}

/// The bounds of `chars` once surrounding whitespace is dropped.
pub fn trim_bounds(chars: &[char]) -> (r: (usize, usize))
    ensures
        r.0 <= r.1 <= chars@.len(),
        chars@.subrange(r.0 as int, r.1 as int) == trimmed(chars@),
{
    let a = skip_leading_ws(chars, 0, chars.len());
    let b = skip_trailing_ws(chars, a, chars.len());
    assert(chars@.subrange(0, chars@.len() as int) =~= chars@);
    (a, b)
}

/// `str::trim`: the text without surrounding whitespace.
pub fn trim(s: &str) -> (r: String)
    ensures
        r@ == trimmed(s@),
{
    let chars = chars_of(s);
    let (a, b) = trim_bounds(&chars);
    string_of_range(&chars, a, b)
}

/// The ASCII lowercase form of one char.
pub open spec fn ascii_lower(c: char) -> char {
    if 'A' <= c && c <= 'Z' {
        ((c as u32) + 32) as char
    } else {
        c
    }
}

/// `s` with ASCII letters lowercased and everything else kept.
pub open spec fn ascii_lowercase(s: Seq<char>) -> Seq<char> {
    s.map_values(|c: char| ascii_lower(c))
}

pub fn to_ascii_lower(c: char) -> (r: char)
    ensures
        r == ascii_lower(c),
{
    if 'A' <= c && c <= 'Z' {
        let code = (c as u32) + 32;
        assert(0x61 <= code <= 0x7a);
        char_from_ascii(code)
    } else {
        c
    }
}

/// The char with an ASCII code point.
pub(crate) fn char_from_ascii(code: u32) -> (c: char)
    requires
        code < 0x80,
    ensures
        c == code as char,
{
    (code as u8) as char
}

/// `s` with ASCII letters lowercased.
pub fn ascii_lowercase_string(s: &str) -> (r: String)
    ensures
        r@ == ascii_lowercase(s@),
{
    let chars = chars_of(s);
    let mut out = String::new();
    let mut i: usize = 0;
    while i < chars.len()
        invariant
            chars@ == s@,
            i <= chars@.len(),
            out@ == ascii_lowercase(chars@.take(i as int)),
        decreases chars@.len() - i,
    {
        push_char(&mut out, to_ascii_lower(chars[i]));
        i = i + 1;
        assert(out@ =~= ascii_lowercase(chars@.take(i as int)));
    }
    assert(chars@.take(chars@.len() as int) =~= chars@);
    out
}


pub open spec fn is_ascii_digit(c: char) -> bool {
    '0' <= c && c <= '9'
}

pub open spec fn digit_value(c: char) -> nat {
    ((c as u32) - ('0' as u32)) as nat
}

pub open spec fn digit_char(d: nat) -> char {
    if d == 0 {
        '0'
    } else if d == 1 {
        '1'
    } else if d == 2 {
        '2'
    } else if d == 3 {
        '3'
    } else if d == 4 {
        '4'
    } else if d == 5 {
        '5'
    } else if d == 6 {
        '6'
    } else if d == 7 {
        '7'
    } else if d == 8 {
        '8'
    } else {
        '9'
    }
}

fn digit_char_of(d: u32) -> (c: char)
    requires
        d < 10,
    ensures
        c == digit_char(d as nat),
{
    if d == 0 {
        '0'
    } else if d == 1 {
        '1'
    } else if d == 2 {
        '2'
    } else if d == 3 {
        '3'
    } else if d == 4 {
        '4'
    } else if d == 5 {
        '5'
    } else if d == 6 {
        '6'
    } else if d == 7 {
        '7'
    } else if d == 8 {
        '8'
    } else {
        '9'
    }
}

/// The decimal digits of `n`, without leading zeros.
pub open spec fn decimal(n: nat) -> Seq<char>
    decreases n,
{
    if n < 10 {
        seq![digit_char(n)]
    } else {
        decimal(n / 10) + seq![digit_char(n % 10)]
    }
}

/// The number a run of ASCII digits spells.
pub open spec fn decimal_value(s: Seq<char>) -> nat
    decreases s.len(),
{
    if s.len() == 0 {
        0
    } else {
        decimal_value(s.drop_last()) * 10 + digit_value(s.last())
    }
}

/// The longest run of ASCII digits at the start of `s`.
pub open spec fn digit_prefix(s: Seq<char>) -> Seq<char>
    decreases s.len(),
{
    if s.len() > 0 && is_ascii_digit(s[0]) {
        seq![s[0]] + digit_prefix(s.drop_first())
    } else {
        Seq::empty()
    }
}

pub proof fn lemma_digit_round_trip(x: nat)
    requires
        x < 10,
    ensures
        digit_value(digit_char(x)) == x,
        is_ascii_digit(digit_char(x)),
{
    if x == 0 {
        assert(('0' as u32) == 48);
    } else if x == 1 {
        assert(('1' as u32) == 49);
    } else if x == 2 {
        assert(('2' as u32) == 50);
    } else if x == 3 {
        assert(('3' as u32) == 51);
    } else if x == 4 {
        assert(('4' as u32) == 52);
    } else if x == 5 {
        assert(('5' as u32) == 53);
    } else if x == 6 {
        assert(('6' as u32) == 54);
    } else if x == 7 {
        assert(('7' as u32) == 55);
    } else if x == 8 {
        assert(('8' as u32) == 56);
    } else {
        assert(('9' as u32) == 57);
    }
}

pub proof fn lemma_decimal_digits(n: nat)
    ensures
        decimal(n).len() >= 1,
        forall|i: int| 0 <= i < decimal(n).len() ==> is_ascii_digit(#[trigger] decimal(n)[i]),
        decimal_value(decimal(n)) == n,
    decreases n,
{
    lemma_digit_round_trip(n % 10);
    if n < 10 {
        assert(decimal(n).drop_last() =~= Seq::<char>::empty());
        assert(decimal(n).last() == digit_char(n));
        assert(decimal_value(Seq::<char>::empty()) == 0);
    }
    if n >= 10 {
        lemma_decimal_digits(n / 10);
        let d = decimal(n);
        assert(d.drop_last() =~= decimal(n / 10));
        assert(d.last() == digit_char(n % 10));
        assert(decimal_value(d) == (n / 10) * 10 + n % 10);
        assert forall|i: int| 0 <= i < d.len() implies is_ascii_digit(#[trigger] d[i]) by {
            if i < d.len() - 1 {
                assert(d[i] == decimal(n / 10)[i]);
            }
        }
    }
}

/// The digits of `decimal(n)` are read back whole when a non-digit follows.
pub proof fn lemma_digit_prefix_of_decimal(n: nat, rest: Seq<char>)
    requires
        rest.len() == 0 || !is_ascii_digit(rest[0]),
    ensures
        digit_prefix(decimal(n) + rest) == decimal(n),
{
    lemma_decimal_digits(n);
    lemma_digit_prefix_all(decimal(n), rest);
}

pub proof fn lemma_digit_prefix_all(d: Seq<char>, rest: Seq<char>)
    requires
        forall|i: int| 0 <= i < d.len() ==> is_ascii_digit(#[trigger] d[i]),
        rest.len() == 0 || !is_ascii_digit(rest[0]),
    ensures
        digit_prefix(d + rest) == d,
    decreases d.len(),
{
    if d.len() == 0 {
        assert(d + rest =~= rest);
    } else {
        assert((d + rest).drop_first() =~= d.drop_first() + rest);
        assert(is_ascii_digit(d[0]));
        lemma_digit_prefix_all(d.drop_first(), rest);
        assert(seq![d[0]] + d.drop_first() =~= d);
    }
}

/// Appends the decimal digits of `n` to `out`.
pub fn push_decimal(out: &mut String, n: u32)
    ensures
        final(out)@ == old(out)@ + decimal(n as nat),
    decreases n,
{
    if n >= 10 {
        push_decimal(out, n / 10);
    }
    let d = n % 10;
    push_char(out, digit_char_of(d));
    proof {
        if n >= 10 {
            assert(final(out)@ =~= old(out)@ + decimal(n as nat));
        } else {
            assert(final(out)@ =~= old(out)@ + decimal(n as nat));
        }
    }
}


/// Whether `needle` occurs in `hay` at position `i`.
pub open spec fn occurs_at(hay: Seq<char>, needle: Seq<char>, i: int) -> bool {
    0 <= i && i + needle.len() <= hay.len() && hay.subrange(i, i + needle.len()) == needle
}

/// Whether `needle` occurs anywhere in `hay`.
pub open spec fn has_substring(hay: Seq<char>, needle: Seq<char>) -> bool {
    exists|i: int| occurs_at(hay, needle, i)
}

/// Whether `hay` starts with `p`.
pub open spec fn starts_with(hay: Seq<char>, p: Seq<char>) -> bool {
    p.len() <= hay.len() && hay.take(p.len() as int) == p
}

/// Whether `hay` ends with `p`.
pub open spec fn ends_with(hay: Seq<char>, p: Seq<char>) -> bool {
    p.len() <= hay.len() && hay.skip(hay.len() - p.len()) == p
}

/// The first position at or after `i` where `needle` occurs in `hay`.
pub open spec fn find_from(hay: Seq<char>, needle: Seq<char>, i: int) -> Option<int>
    decreases hay.len() + 1 - i,
{
    if i < 0 || i + needle.len() > hay.len() {
        None
    } else if occurs_at(hay, needle, i) {
        Some(i)
    } else {
        find_from(hay, needle, i + 1)
    }
}

pub proof fn lemma_find_from(hay: Seq<char>, needle: Seq<char>, i: int)
    requires
        0 <= i,
    ensures
        find_from(hay, needle, i) matches Some(k) ==> i <= k && occurs_at(hay, needle, k),
        find_from(hay, needle, i) is None ==> forall|k: int| i <= k ==> !occurs_at(hay, needle, k),
    decreases hay.len() + 1 - i,
{
    if i + needle.len() <= hay.len() && !occurs_at(hay, needle, i) {
        lemma_find_from(hay, needle, i + 1);
    }
}

/// Whether `needle` occurs in `hay` at `i`.
pub fn matches_at(hay: &Vec<char>, needle: &Vec<char>, i: usize) -> (r: bool)
    ensures
        r == occurs_at(hay@, needle@, i as int),
{
    if i > hay.len() || needle.len() > hay.len() - i {
        return false;
    }
    let n = hay.len();
    let mut k: usize = 0;
    while k < needle.len()
        invariant
            n == hay@.len(),
            i + needle@.len() <= hay@.len(),
            k <= needle@.len(),
            forall|j: int| 0 <= j < k ==> hay@[i + j] == needle@[j],
        decreases needle@.len() - k,
    {
        if hay[i + k] != needle[k] {
            return false;
        }
        k = k + 1;
    }
    assert(hay@.subrange(i as int, i + needle@.len()) =~= needle@);
    true
}

/// The first position at or after `from` where `needle` occurs in `hay`.
pub fn find_chars(hay: &Vec<char>, needle: &Vec<char>, from: usize) -> (r: Option<usize>)
    ensures
        r matches Some(k) ==> find_from(hay@, needle@, from as int) == Some(k as int),
        r is None ==> find_from(hay@, needle@, from as int) is None,
{
    let mut i = from;
    while i <= hay.len() && needle.len() <= hay.len() - i
        invariant
            from <= i,
            find_from(hay@, needle@, i as int) == find_from(hay@, needle@, from as int),
        decreases hay@.len() + 1 - i,
    {
        if matches_at(hay, needle, i) {
            return Some(i);
        }
        if i == hay.len() {
            assert(find_from(hay@, needle@, i + 1) is None);
            return None;
        }
        i = i + 1;
    }
    None
}

/// Whether `needle` occurs in `hay`.
pub fn contains_chars(hay: &Vec<char>, needle: &Vec<char>) -> (r: bool)
    ensures
        r == has_substring(hay@, needle@),
{
    let found = find_chars(hay, needle, 0);
    proof {
        lemma_find_from(hay@, needle@, 0);
        if has_substring(hay@, needle@) {
            let k = choose|k: int| occurs_at(hay@, needle@, k);
        }
    }
    found.is_some()
}

/// Whether `needle` occurs in `hay`.
pub fn contains_text(hay: &str, needle: &str) -> (r: bool)
    ensures
        r == has_substring(hay@, needle@),
{
    contains_chars(&chars_of(hay), &chars_of(needle))
}

/// Whether `hay` starts with `p`.
pub fn starts_with_text(hay: &str, p: &str) -> (r: bool)
    ensures
        r == starts_with(hay@, p@),
{
    let h = chars_of(hay);
    let q = chars_of(p);
    let r = matches_at(&h, &q, 0);
    assert(h@.subrange(0, q@.len() as int) =~= h@.take(q@.len() as int));
    r
}

/// Whether `hay` ends with `p`.
pub fn ends_with_chars(hay: &Vec<char>, p: &Vec<char>) -> (r: bool)
    ensures
        r == ends_with(hay@, p@),
{
    if p.len() > hay.len() {
        return false;
    }
    let r = matches_at(hay, p, hay.len() - p.len());
    assert(hay@.subrange(hay@.len() - p@.len(), hay@.len() as int) =~= hay@.skip(
        hay@.len() - p@.len(),
    ));
    r
}


/// Every char of `s` is whitespace.
pub open spec fn all_white_space(s: Seq<char>) -> bool {
    forall|i: int| 0 <= i < s.len() ==> is_white_space(#[trigger] s[i])
}

proof fn lemma_trim_end_empty(t: Seq<char>)
    ensures
        trim_end(t).len() == 0 <==> all_white_space(t),
    decreases t.len(),
{
    if t.len() > 0 {
        lemma_trim_end_empty(t.drop_last());
        if all_white_space(t) {
            assert(is_white_space(t[t.len() - 1]));
            assert(all_white_space(t.drop_last())) by {
                assert forall|i: int| 0 <= i < t.drop_last().len() implies is_white_space(#[trigger] t.drop_last()[i]) by {
                    assert(t.drop_last()[i] == t[i]);
                }
            }
        }
        if is_white_space(t.last()) && all_white_space(t.drop_last()) {
            assert forall|i: int| 0 <= i < t.len() implies is_white_space(#[trigger] t[i]) by {
                if i < t.len() - 1 {
                    assert(t.drop_last()[i] == t[i]);
                }
            }
        }
    }
}

proof fn lemma_trim_start_white(s: Seq<char>)
    ensures
        all_white_space(trim_start(s)) ==> all_white_space(s),
        all_white_space(s) ==> trim_start(s).len() == 0,
    decreases s.len(),
{
    if s.len() > 0 && is_white_space(s[0]) {
        lemma_trim_start_white(s.drop_first());
        if all_white_space(s.drop_first()) {
            assert forall|i: int| 0 <= i < s.len() implies is_white_space(#[trigger] s[i]) by {
                if i > 0 {
                    assert(s.drop_first()[i - 1] == s[i]);
                }
            }
        }
        if all_white_space(s) {
            assert forall|i: int| 0 <= i < s.drop_first().len() implies is_white_space(#[trigger] s.drop_first()[i]) by {
                assert(s.drop_first()[i] == s[i + 1]);
            }
        }
    } else if s.len() > 0 {
        assert(!all_white_space(s) || is_white_space(s[0]));
    }
}

/// A text trims to nothing exactly when it is all whitespace.
pub proof fn lemma_trimmed_empty(s: Seq<char>)
    ensures
        trimmed(s).len() == 0 <==> all_white_space(s),
{
    lemma_trim_start_white(s);
    lemma_trim_end_empty(trim_start(s));
    if all_white_space(s) {
        assert(trim_start(s).len() == 0);
        lemma_trim_end_empty(trim_start(s));
        assert(all_white_space(trim_start(s)));
    }
}

/// Two texts are all whitespace together exactly when each is.
pub proof fn lemma_white_space_concat(a: Seq<char>, b: Seq<char>)
    ensures
        all_white_space(a + b) <==> (all_white_space(a) && all_white_space(b)),
{
    if all_white_space(a + b) {
        assert forall|i: int| 0 <= i < a.len() implies is_white_space(#[trigger] a[i]) by {
            assert((a + b)[i] == a[i]);
        }
        assert forall|i: int| 0 <= i < b.len() implies is_white_space(#[trigger] b[i]) by {
            assert((a + b)[a.len() + i] == b[i]);
        }
    }
    if all_white_space(a) && all_white_space(b) {
        assert forall|i: int| 0 <= i < (a + b).len() implies is_white_space(#[trigger] (a + b)[i]) by {
            if i < a.len() {
                assert((a + b)[i] == a[i]);
            } else {
                assert((a + b)[i] == b[i - a.len()]);
            }
        }
    }
}

} // verus!
