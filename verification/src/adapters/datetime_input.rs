//! Parsing of hand-typed dates and times.
//!
//! The pickers accept free text so a date can be entered without paging a
//! calendar. Users type what their locale taught them (`2026/9/15`,
//! `2026-09-15 13:30`, `9月15日 13時30分`, `20260915`, or just `15`), so the
//! parser reads separators rather than one fixed pattern. The caller supplies
//! the reference date that fills in the parts the input leaves out.

use vstd::prelude::*;
use crate::adapters::datetime::DateTimeParts;
use crate::text::{char_from_ascii, chars_of, decimal_value, digit_value, is_ascii_digit, is_white_space, is_whitespace};

verus! {

/// A successfully parsed input.
///
/// `has_time` distinguishes "the user typed a date only" from "the user typed
/// midnight", which decides whether the picker keeps the time it already had.
#[derive(Debug, Clone, Copy, PartialEq, Eq, Structural)]
pub struct DateTimeInput {
    pub year: i32,
    pub month: i32,
    pub day: i32,
    pub hour: i32,
    pub minute: i32,
    pub has_time: bool,
}

/// Whether `year` is a leap year of the proleptic Gregorian calendar.
pub open spec fn leap_year(year: int) -> bool {
    (year % 4 == 0 && year % 100 != 0) || year % 400 == 0
}

/// The number of days in `month` of `year`.
pub open spec fn days_in_month(year: int, month: int) -> int {
    if month == 2 {
        if leap_year(year) {
            29
        } else {
            28
        }
    } else if month == 4 || month == 6 || month == 9 || month == 11 {
        30
    } else {
        31
    }
}

/// Whether the calendar date exists within the years a `NaiveDate` covers
/// (262144 BCE to 262142 CE).
pub open spec fn calendar_date(year: int, month: int, day: int) -> bool {
    &&& -262143 <= year <= 262142
    &&& 1 <= month <= 12
    &&& 1 <= day <= days_in_month(year, month)
}

/// Calls `chrono::NaiveDate::from_ymd_opt`, which is `Some` exactly when the
/// date exists in the proleptic Gregorian calendar and its year lies between
/// `NaiveDate::MIN` and `NaiveDate::MAX`; only whether it is `Some` is returned.
#[verifier::external_body]
pub(crate) fn date_exists(year: i32, month: u32, day: u32) -> (r: bool)
    ensures
        r == calendar_date(year as int, month as int, day as int),
{
    chrono::NaiveDate::from_ymd_opt(year, month, day).is_some()
}

/// How one typed char is read: full-width digits become ASCII, the date
/// separators `/`, the time separators `:`, and the other markers spaces.
pub open spec fn normal_char(c: char) -> char {
    if '０' <= c && c <= '９' {
        ((c as u32 - '０' as u32) + '0' as u32) as char
    } else if c == '年' || c == '月' || c == '-' || c == '.' || c == '／' {
        '/'
    } else if c == '時' || c == '：' {
        ':'
    } else if c == '日' || c == '分' || c == 'T' || c == 't' || c == '\u{3000}' || c == '秒' {
        ' '
    } else {
        c
    }
}

pub open spec fn normalized(s: Seq<char>) -> Seq<char> {
    s.map_values(|c: char| normal_char(c))
}

/// Whether `c` separates chunks: whitespace, or in `numbers` mode a `/`, `:` or `,`.
pub open spec fn is_break(numbers: bool, c: char) -> bool {
    if numbers {
        c == '/' || c == ':' || c == ','
    } else {
        is_white_space(c)
    }
}

/// The finished chunks and the chunk being read after scanning `s`.
pub open spec fn chunk_scan(s: Seq<char>, numbers: bool) -> (Seq<Seq<char>>, Seq<char>)
    decreases s.len(),
{
    if s.len() == 0 {
        (Seq::empty(), Seq::empty())
    } else {
        let (done, current) = chunk_scan(s.drop_last(), numbers);
        let c = s.last();
        if is_break(numbers, c) {
            if current.len() > 0 {
                (done.push(current), Seq::empty())
            } else {
                (done, Seq::empty())
            }
        } else {
            (done, current.push(c))
        }
    }
}

/// The non-empty runs of `s` between breaks.
pub open spec fn chunks(s: Seq<char>, numbers: bool) -> Seq<Seq<char>> {
    let (done, current) = chunk_scan(s, numbers);
    if current.len() > 0 {
        done.push(current)
    } else {
        done
    }
}

/// The date chunks in order, and the last chunk holding a `:` (the time).
pub open spec fn date_and_time(cs: Seq<Seq<char>>) -> (Seq<Seq<char>>, Option<Seq<char>>)
    decreases cs.len(),
{
    if cs.len() == 0 {
        (Seq::empty(), None)
    } else {
        let (dates, time) = date_and_time(cs.drop_last());
        let c = cs.last();
        if c.contains(':') {
            (dates, Some(c))
        } else {
            (dates.push(c), time)
        }
    }
}

/// `parts` joined with `/`.
pub open spec fn join_slashes(parts: Seq<Seq<char>>) -> Seq<char>
    decreases parts.len(),
{
    if parts.len() == 0 {
        Seq::empty()
    } else if parts.len() == 1 {
        parts[0]
    } else {
        join_slashes(parts.drop_last()) + seq!['/'] + parts.last()
    }
}

/// `s` without leading `/`.
pub open spec fn trim_start_slashes(s: Seq<char>) -> Seq<char>
    decreases s.len(),
{
    if s.len() > 0 && s[0] == '/' {
        trim_start_slashes(s.drop_first())
    } else {
        s
    }
}

/// `s` without trailing `/`.
pub open spec fn trim_end_slashes(s: Seq<char>) -> Seq<char>
    decreases s.len(),
{
    if s.len() > 0 && s.last() == '/' {
        trim_end_slashes(s.drop_last())
    } else {
        s
    }
}

/// Whether `c` may appear in a run of numbers.
pub open spec fn number_char(c: char) -> bool {
    is_ascii_digit(c) || is_break(true, c)
}

/// The values of the digit runs of `parts`, unless one does not fit an `i32`.
pub open spec fn parsed_values(parts: Seq<Seq<char>>) -> Option<Seq<int>>
    decreases parts.len(),
{
    if parts.len() == 0 {
        Some(Seq::empty())
    } else {
        match parsed_values(parts.drop_last()) {
            Some(vs) => if decimal_value(parts.last()) <= i32::MAX {
                Some(vs.push(decimal_value(parts.last()) as int))
            } else {
                None
            },
            None => None,
        }
    }
}

/// The numbers in `text`, which must hold nothing but digits and separators.
pub open spec fn numbers_of(text: Seq<char>) -> Option<Seq<int>> {
    if text.len() == 0 || exists|i: int| 0 <= i < text.len() && !number_char(#[trigger] text[i]) {
        None
    } else {
        parsed_values(chunks(text, true))
    }
}

/// A one- or two-digit year read as this century.
pub open spec fn expand_year(year: int) -> int {
    if year < 100 {
        2000 + year
    } else {
        year
    }
}

/// The date, when it exists.
pub open spec fn valid_date(year: int, month: int, day: int) -> Option<(int, int, int)> {
    if 0 <= month && 0 <= day && calendar_date(year, month, day) {
        Some((year, month, day))
    } else {
        None
    }
}

/// A run of digits without separators, read by its length.
pub open spec fn date_from_digits(len: int, value: int, reference: DateTimeParts) -> Option<
    (int, int, int),
> {
    if len == 8 {
        valid_date(value / 10000, value / 100 % 100, value % 100)
    } else if len == 6 {
        valid_date(expand_year(value / 10000), value / 100 % 100, value % 100)
    } else if len == 4 {
        valid_date(reference.year as int, value / 100, value % 100)
    } else if len == 1 || len == 2 {
        valid_date(reference.year as int, reference.month as int, value)
    } else {
        None
    }
}

/// The date `text` names, with `reference` filling in what is left out.
pub open spec fn date_of(text: Seq<char>, reference: DateTimeParts) -> Option<(int, int, int)> {
    match numbers_of(text) {
        Some(ns) => if ns.len() == 3 {
            valid_date(expand_year(ns[0]), ns[1], ns[2])
        } else if ns.len() == 2 {
            valid_date(reference.year as int, ns[0], ns[1])
        } else if ns.len() == 1 {
            date_from_digits(text.len() as int, ns[0], reference)
        } else {
            None
        },
        None => None,
    }
}

/// The hour and minute `text` names.
pub open spec fn time_of(text: Seq<char>) -> Option<(int, int)> {
    match numbers_of(text) {
        Some(ns) => {
            let hm = if ns.len() == 2 || ns.len() == 3 {
                Some((ns[0], ns[1]))
            } else if ns.len() == 1 {
                Some((ns[0], 0int))
            } else {
                None
            };
            match hm {
                Some((h, m)) => if 0 <= h < 24 && 0 <= m < 60 {
                    Some((h, m))
                } else {
                    None
                },
                None => None,
            }
        },
        None => None,
    }
}

/// What [`parse_datetime_input`] reads from `input`.
pub open spec fn datetime_input_of(input: Seq<char>, reference: DateTimeParts) -> Option<
    DateTimeInput,
> {
    let (dates, time) = date_and_time(chunks(normalized(input), false));
    let date_text = trim_end_slashes(trim_start_slashes(join_slashes(dates)));
    match date_of(date_text, reference) {
        Some((y, mo, d)) => match time {
            Some(t) => match time_of(t) {
                Some((h, mi)) => Some(
                    DateTimeInput {
                        year: y as i32,
                        month: mo as i32,
                        day: d as i32,
                        hour: h as i32,
                        minute: mi as i32,
                        has_time: true,
                    },
                ),
                None => None,
            },
            None => Some(
                DateTimeInput {
                    year: y as i32,
                    month: mo as i32,
                    day: d as i32,
                    hour: reference.hour,
                    minute: reference.minute,
                    has_time: false,
                },
            ),
        },
        None => None,
    }
}

fn normal(c: char) -> (r: char)
    ensures
        r == normal_char(c),
{
    if '０' <= c && c <= '９' {
        let code = (c as u32) - ('０' as u32) + ('0' as u32);
        char_from_ascii(code)
    } else if c == '年' || c == '月' || c == '-' || c == '.' || c == '／' {
        '/'
    } else if c == '時' || c == '：' {
        ':'
    } else if c == '日' || c == '分' || c == 'T' || c == 't' || c == '\u{3000}' || c == '秒' {
        ' '
    } else {
        c
    }
}

fn normalize(input: &Vec<char>) -> (r: Vec<char>)
    ensures
        r@ == normalized(input@),
{
    let mut out: Vec<char> = Vec::new();
    let mut i: usize = 0;
    while i < input.len()
        invariant
            i <= input@.len(),
            out@.len() == i,
            forall|k: int| 0 <= k < i ==> #[trigger] out@[k] == normal_char(input@[k]),
        decreases input@.len() - i,
    {
        out.push(normal(input[i]));
        i = i + 1;
    }
    assert(out@ =~= normalized(input@));
    out
}

fn breaks(numbers: bool, c: char) -> (r: bool)
    ensures
        r == is_break(numbers, c),
{
    if numbers {
        c == '/' || c == ':' || c == ','
    } else {
        is_whitespace(c)
    }
}

pub open spec fn chars_views(v: Seq<Vec<char>>) -> Seq<Seq<char>> {
    v.map_values(|x: Vec<char>| x@)
}

fn split_chunks(s: &Vec<char>, numbers: bool) -> (r: Vec<Vec<char>>)
    ensures
        chars_views(r@) == chunks(s@, numbers),
{
    let mut done: Vec<Vec<char>> = Vec::new();
    let mut current: Vec<char> = Vec::new();
    let mut i: usize = 0;
    while i < s.len()
        invariant
            i <= s@.len(),
            chunk_scan(s@.take(i as int), numbers) == (chars_views(done@), current@),
        decreases s@.len() - i,
    {
        proof {
            assert(s@.take(i + 1).drop_last() =~= s@.take(i as int));
        }
        let c = s[i];
        let ghost before = done@;
        if breaks(numbers, c) {
            if current.len() > 0 {
                let finished = current;
                done.push(finished);
                current = Vec::new();
                assert(chars_views(done@) =~= chars_views(before).push(done@.last()@));
            } else {
                current = Vec::new();
            }
        } else {
            current.push(c);
        }
        i = i + 1;
        assert(chunk_scan(s@.take(i as int), numbers) =~= (chars_views(done@), current@));
    }
    assert(s@.take(s@.len() as int) =~= s@);
    if current.len() > 0 {
        let ghost before = done@;
        done.push(current);
        assert(chars_views(done@) =~= chars_views(before).push(done@.last()@));
    }
    done
}

fn has_colon(s: &Vec<char>) -> (r: bool)
    ensures
        r == s@.contains(':'),
{
    let mut i: usize = 0;
    while i < s.len()
        invariant
            i <= s@.len(),
            forall|k: int| 0 <= k < i ==> s@[k] != ':',
        decreases s@.len() - i,
    {
        if s[i] == ':' {
            assert(s@[i as int] == ':');
            return true;
        }
        i = i + 1;
    }
    false
}

fn split_date_and_time(cs: Vec<Vec<char>>) -> (r: (Vec<Vec<char>>, Option<Vec<char>>))
    ensures
        date_and_time(chars_views(cs@)) == (chars_views(r.0@), match r.1 {
            Some(t) => Some(t@),
            None => None::<Seq<char>>,
        }),
{
    let ghost all = chars_views(cs@);
    let mut dates: Vec<Vec<char>> = Vec::new();
    let mut time: Option<Vec<char>> = None;
    let mut i: usize = 0;
    while i < cs.len()
        invariant
            i <= cs@.len(),
            all == chars_views(cs@),
            date_and_time(all.take(i as int)) == (chars_views(dates@), match time {
                Some(t) => Some(t@),
                None => None::<Seq<char>>,
            }),
        decreases cs@.len() - i,
    {
        proof {
            assert(all.take(i + 1).drop_last() =~= all.take(i as int));
        }
        let ghost before = dates@;
        if has_colon(&cs[i]) {
            time = Some(cs[i].clone());
        } else {
            dates.push(cs[i].clone());
            assert(chars_views(dates@) =~= chars_views(before).push(all[i as int]));
        }
        i = i + 1;
    }
    assert(all.take(cs@.len() as int) =~= all);
    (dates, time)
}

fn join_with_slashes(parts: &Vec<Vec<char>>) -> (r: Vec<char>)
    ensures
        r@ == join_slashes(chars_views(parts@)),
{
    let ghost views = chars_views(parts@);
    let mut out: Vec<char> = Vec::new();
    let mut i: usize = 0;
    while i < parts.len()
        invariant
            i <= parts@.len(),
            views == chars_views(parts@),
            out@ == join_slashes(views.take(i as int)),
        decreases parts@.len() - i,
    {
        proof {
            assert(views.take(i + 1).drop_last() =~= views.take(i as int));
        }
        if i > 0 {
            out.push('/');
        }
        let mut k: usize = 0;
        let ghost start = out@;
        while k < parts[i].len()
            invariant
                i < parts@.len(),
                k <= parts@[i as int]@.len(),
                out@ == start + parts@[i as int]@.take(k as int),
            decreases parts@[i as int]@.len() - k,
        {
            out.push(parts[i][k]);
            k = k + 1;
            assert(out@ =~= start + parts@[i as int]@.take(k as int));
        }
        assert(parts@[i as int]@.take(k as int) =~= parts@[i as int]@);
        i = i + 1;
        assert(out@ =~= join_slashes(views.take(i as int)));
    }
    assert(views.take(parts@.len() as int) =~= views);
    out
}

fn trim_slashes(s: &Vec<char>) -> (r: Vec<char>)
    ensures
        r@ == trim_end_slashes(trim_start_slashes(s@)),
{
    let n = s.len();
    let mut a: usize = 0;
    assert(s@.skip(0) =~= s@);
    while a < n && s[a] == '/'
        invariant
            a <= n == s@.len(),
            trim_start_slashes(s@.skip(a as int)) == trim_start_slashes(s@),
        decreases n - a,
    {
        assert(s@.skip(a as int).drop_first() =~= s@.skip(a + 1));
        a = a + 1;
    }
    assert(s@.skip(a as int) == trim_start_slashes(s@)) by {
        assert(s@.skip(a as int).len() == 0 || s@.skip(a as int)[0] != '/');
    }
    let mut b = n;
    while b > a && s[b - 1] == '/'
        invariant
            a <= b <= n == s@.len(),
            trim_end_slashes(s@.subrange(a as int, b as int)) == trim_end_slashes(s@.skip(a as int)),
        decreases b - a,
    {
        assert(s@.subrange(a as int, b as int).drop_last() =~= s@.subrange(a as int, b - 1));
        b = b - 1;
    }
    proof {
        assert(s@.subrange(a as int, n as int) =~= s@.skip(a as int));
    }
    let mut out: Vec<char> = Vec::new();
    let mut k = a;
    while k < b
        invariant
            a <= k <= b <= n == s@.len(),
            out@ == s@.subrange(a as int, k as int),
        decreases b - k,
    {
        out.push(s[k]);
        k = k + 1;
        assert(out@ =~= s@.subrange(a as int, k as int));
    }
    out
}

proof fn lemma_decimal_prefix_le(s: Seq<char>, k: int)
    requires
        0 <= k <= s.len(),
    ensures
        decimal_value(s.take(k)) <= decimal_value(s),
    decreases s.len(),
{
    if k < s.len() {
        lemma_decimal_prefix_le(s.drop_last(), k);
        assert(s.drop_last().take(k) =~= s.take(k));
    } else {
        assert(s.take(k) =~= s);
    }
}

/// The value of a run of digits, or `None` when it does not fit an `i32`.
fn digits_value(part: &Vec<char>) -> (r: Option<i32>)
    requires
        forall|k: int| 0 <= k < part@.len() ==> is_ascii_digit(#[trigger] part@[k]),
    ensures
        r matches Some(v) ==> v == decimal_value(part@),
        r is None ==> decimal_value(part@) > i32::MAX,
{
    let mut value: i32 = 0;
    let mut i: usize = 0;
    while i < part.len()
        invariant
            i <= part@.len(),
            forall|k: int| 0 <= k < part@.len() ==> is_ascii_digit(#[trigger] part@[k]),
            value == decimal_value(part@.take(i as int)),
        decreases part@.len() - i,
    {
        proof {
            assert(part@.take(i + 1).drop_last() =~= part@.take(i as int));
        }
        let d = (part[i] as u32) - ('0' as u32);
        assert(d == digit_value(part@[i as int]));
        if value > (i32::MAX - (d as i32)) / 10 {
            proof {
                assert(decimal_value(part@.take(i + 1)) == value * 10 + d);
                lemma_decimal_prefix_le(part@, i + 1);
            }
            return None;
        }
        value = value * 10 + (d as i32);
        i = i + 1;
    }
    assert(part@.take(part@.len() as int) =~= part@);
    Some(value)
}

pub open spec fn ints_view(v: Seq<i32>) -> Seq<int> {
    v.map_values(|x: i32| x as int)
}

/// Splits on every separator and rejects anything that is not a plain number.
///
/// Rejecting rather than skipping keeps `2026/9/x5` from silently becoming
/// `2026/9/5`.
fn split_numbers(text: &Vec<char>) -> (r: Option<Vec<i32>>)
    ensures
        match numbers_of(text@) {
            Some(ns) => r matches Some(v) && ints_view(v@) == ns,
            None => r is None,
        },
{
    if text.len() == 0 {
        return None;
    }
    let mut i: usize = 0;
    while i < text.len()
        invariant
            i <= text@.len(),
            forall|k: int| 0 <= k < i ==> number_char(#[trigger] text@[k]),
        decreases text@.len() - i,
    {
        let c = text[i];
        if !(('0' <= c && c <= '9') || breaks(true, c)) {
            assert(!number_char(text@[i as int]));
            return None;
        }
        i = i + 1;
    }
    let parts = split_chunks(text, true);
    let ghost views = chars_views(parts@);
    proof {
        lemma_chunk_chars(text@, true);
    }
    let mut values: Vec<i32> = Vec::new();
    let mut j: usize = 0;
    while j < parts.len()
        invariant
            j <= parts@.len(),
            views == chars_views(parts@),
            views == chunks(text@, true),
            forall|p: int, k: int|
                0 <= p < views.len() && 0 <= k < views[p].len() ==> number_char(#[trigger] views[p][k]) && !is_break(true, views[p][k]),
            parsed_values(views.take(j as int)) == Some(ints_view(values@)),
        decreases parts@.len() - j,
    {
        proof {
            assert(views.take(j + 1).drop_last() =~= views.take(j as int));
            assert(views[j as int] == parts@[j as int]@);
            assert forall|k: int| 0 <= k < parts@[j as int]@.len() implies is_ascii_digit(#[trigger] parts@[j as int]@[k]) by {
                assert(number_char(views[j as int][k]));
            }
        }
        match digits_value(&parts[j]) {
            Some(v) => {
                let ghost before = values@;
                values.push(v);
                assert(ints_view(values@) =~= ints_view(before).push(v as int));
            },
            None => {
                proof {
                    lemma_parsed_values_none(views, j as int);
                    assert(views.take(views.len() as int) =~= views);
                }
                return None;
            },
        }
        j = j + 1;
    }
    assert(views.take(parts@.len() as int) =~= views);
    Some(values)
}

/// Once one part does not fit, no longer prefix parses either.
proof fn lemma_parsed_values_none(views: Seq<Seq<char>>, j: int)
    requires
        0 <= j < views.len(),
        decimal_value(views[j]) > i32::MAX,
    ensures
        forall|m: int| j < m <= views.len() ==> #[trigger] parsed_values(views.take(m)) is None,
    decreases views.len() - j,
{
    assert forall|m: int| j < m <= views.len() implies #[trigger] parsed_values(views.take(m)) is None by {
        lemma_parsed_values_none_at(views, j, m);
    }
}

proof fn lemma_parsed_values_none_at(views: Seq<Seq<char>>, j: int, m: int)
    requires
        0 <= j < m <= views.len(),
        decimal_value(views[j]) > i32::MAX,
    ensures
        parsed_values(views.take(m)) is None,
    decreases m,
{
    assert(views.take(m).drop_last() =~= views.take(m - 1));
    if m - 1 > j {
        lemma_parsed_values_none_at(views, j, m - 1);
    } else {
        assert(views.take(m).last() == views[j]);
    }
}

/// Every char of every chunk comes from the text and is not a break.
proof fn lemma_chunk_chars(s: Seq<char>, numbers: bool)
    ensures
        forall|p: int, k: int|
            0 <= p < chunks(s, numbers).len() && 0 <= k < chunks(s, numbers)[p].len() ==> ((exists|i: int| 0 <= i < s.len() && s[i] == #[trigger] chunks(s, numbers)[p][k]) && !is_break(numbers, chunks(s, numbers)[p][k])),
{
    lemma_chunk_scan_chars(s, numbers);
}

proof fn lemma_chunk_scan_chars(s: Seq<char>, numbers: bool)
    ensures
        forall|p: int, k: int|
            0 <= p < chunk_scan(s, numbers).0.len() && 0 <= k < chunk_scan(s, numbers).0[p].len() ==> ((exists|i: int| 0 <= i < s.len() && s[i] == #[trigger] chunk_scan(s, numbers).0[p][k]) && !is_break(numbers, chunk_scan(s, numbers).0[p][k])),
        forall|k: int|
            0 <= k < chunk_scan(s, numbers).1.len() ==> ((exists|i: int| 0 <= i < s.len() && s[i] == #[trigger] chunk_scan(s, numbers).1[k]) && !is_break(numbers, chunk_scan(s, numbers).1[k])),
    decreases s.len(),
{
    if s.len() > 0 {
        let t = s.drop_last();
        lemma_chunk_scan_chars(t, numbers);
        let (done, current) = chunk_scan(t, numbers);
        assert forall|p: int, k: int|
            0 <= p < chunk_scan(s, numbers).0.len() && 0 <= k < chunk_scan(s, numbers).0[p].len() implies ((exists|i: int| 0 <= i < s.len() && s[i] == #[trigger] chunk_scan(s, numbers).0[p][k]) && !is_break(numbers, chunk_scan(s, numbers).0[p][k])) by {
            let c = chunk_scan(s, numbers).0[p][k];
            if p < done.len() {
                assert(c == done[p][k]);
                let i = choose|i: int| 0 <= i < t.len() && t[i] == #[trigger] done[p][k];
                assert(s[i] == t[i]);
            } else {
                assert(c == current[k]);
                let i = choose|i: int| 0 <= i < t.len() && t[i] == #[trigger] current[k];
                assert(s[i] == t[i]);
            }
        }
        assert forall|k: int|
            0 <= k < chunk_scan(s, numbers).1.len() implies ((exists|i: int| 0 <= i < s.len() && s[i] == #[trigger] chunk_scan(s, numbers).1[k]) && !is_break(numbers, chunk_scan(s, numbers).1[k])) by {
            let c = chunk_scan(s, numbers).1[k];
            if k < current.len() {
                assert(c == current[k]);
                let i = choose|i: int| 0 <= i < t.len() && t[i] == #[trigger] current[k];
                assert(s[i] == t[i]);
            } else {
                assert(c == s[s.len() - 1]);
            }
        }
    }
}

fn expand(year: i32) -> (r: i32)
    ensures
        r == expand_year(year as int),
{
    if year < 100 {
        2000 + year
    } else {
        year
    }
}

fn checked_date(year: i32, month: i32, day: i32) -> (r: Option<(i32, i32, i32)>)
    ensures
        match valid_date(year as int, month as int, day as int) {
            Some((y, m, d)) => r == Some((y as i32, m as i32, d as i32)),
            None => r is None,
        },
{
    if month < 0 || day < 0 {
        return None;
    }
    if date_exists(year, month as u32, day as u32) {
        Some((year, month, day))
    } else {
        None
    }
}

/// Reads a run of digits that carries no separator at all.
///
/// The length says what it is: `20260915` is a full date, `260915` a two-digit
/// year, `0915` a month and a day inside the reference year, and one or two
/// digits a day inside the reference month.
fn from_digits(len: usize, value: i32, reference: DateTimeParts) -> (r: Option<(i32, i32, i32)>)
    requires
        value >= 0,
    ensures
        match date_from_digits(len as int, value as int, reference) {
            Some((y, m, d)) => r == Some((y as i32, m as i32, d as i32)),
            None => r is None,
        },
{
    if len == 8 {
        checked_date(value / 10000, value / 100 % 100, value % 100)
    } else if len == 6 {
        checked_date(expand(value / 10000), value / 100 % 100, value % 100)
    } else if len == 4 {
        checked_date(reference.year, value / 100, value % 100)
    } else if len == 1 || len == 2 {
        checked_date(reference.year, reference.month, value)
    } else {
        None
    }
}

fn parse_date(text: &Vec<char>, reference: DateTimeParts) -> (r: Option<(i32, i32, i32)>)
    ensures
        match date_of(text@, reference) {
            Some((y, m, d)) => r == Some((y as i32, m as i32, d as i32)),
            None => r is None,
        },
{
    let numbers = match split_numbers(text) {
        Some(numbers) => numbers,
        None => return None,
    };
    proof {
        assert forall|k: int| 0 <= k < numbers@.len() implies numbers@[k] >= 0 by {
            assert(ints_view(numbers@)[k] == numbers@[k] as int);
            lemma_parsed_nonneg(chunks(text@, true), k);
        }
    }
    if numbers.len() == 3 {
        checked_date(expand(numbers[0]), numbers[1], numbers[2])
    } else if numbers.len() == 2 {
        checked_date(reference.year, numbers[0], numbers[1])
    } else if numbers.len() == 1 {
        from_digits(text.len(), numbers[0], reference)
    } else {
        None
    }
}

proof fn lemma_parsed_nonneg(parts: Seq<Seq<char>>, k: int)
    requires
        parsed_values(parts) is Some,
        0 <= k < parsed_values(parts)->0.len(),
    ensures
        parsed_values(parts)->0[k] >= 0,
        parsed_values(parts)->0.len() == parts.len(),
    decreases parts.len(),
{
    if parts.len() > 0 {
        let vs = parsed_values(parts.drop_last())->0;
        if k < vs.len() {
            lemma_parsed_nonneg(parts.drop_last(), k);
        } else {
            if vs.len() > 0 {
                lemma_parsed_nonneg(parts.drop_last(), 0);
            }
        }
        if vs.len() == 0 && parts.drop_last().len() > 0 {
            lemma_parsed_nonneg(parts.drop_last(), 0);
        }
    }
}

fn parse_time(text: &Vec<char>) -> (r: Option<(i32, i32)>)
    ensures
        match time_of(text@) {
            Some((h, m)) => r == Some((h as i32, m as i32)),
            None => r is None,
        },
{
    let numbers = match split_numbers(text) {
        Some(numbers) => numbers,
        None => return None,
    };
    let (hour, minute) = if numbers.len() == 2 || numbers.len() == 3 {
        (numbers[0], numbers[1])
    } else if numbers.len() == 1 {
        (numbers[0], 0)
    } else {
        return None;
    };
    assert(ints_view(numbers@)[0] == numbers@[0] as int);
    if numbers.len() >= 2 {
        assert(ints_view(numbers@)[1] == numbers@[1] as int);
    }
    if 0 <= hour && hour < 24 && 0 <= minute && minute < 60 {
        Some((hour, minute))
    } else {
        None
    }
}

/// Reads a date, and optionally a time, out of what the user typed.
///
/// Returns `None` when the text does not describe a real date, so the caller
/// can leave the picker on its previous value instead of jumping somewhere
/// arbitrary.
pub fn parse_datetime_input(input: &str, reference: DateTimeParts) -> (r: Option<DateTimeInput>)
    ensures
        r == datetime_input_of(input@, reference),
{
    let chars = chars_of(input);
    let normalized = normalize(&chars);
    let all = split_chunks(&normalized, false);
    let (dates, time) = split_date_and_time(all);
    let joined = join_with_slashes(&dates);
    let date_text = trim_slashes(&joined);
    let (year, month, day) = match parse_date(&date_text, reference) {
        Some(date) => date,
        None => return None,
    };
    match time {
        Some(text) => match parse_time(&text) {
            Some((hour, minute)) => Some(
                DateTimeInput { year, month, day, hour, minute, has_time: true },
            ),
            None => None,
        },
        None => Some(
            DateTimeInput {
                year,
                month,
                day,
                hour: reference.hour,
                minute: reference.minute,
                has_time: false,
            },
        ),
    }
}

} // verus!
