//! Due-date keywords accepted by the search box.
//!
//! Every language's spelling is accepted regardless of the UI language, and a
//! keyword is written back in the UI language's own spelling ([`DueSpec::spell`]).
//! The internal query stores the language-neutral [`DueSpec::key`] instead.

use vstd::prelude::*;
use crate::search::vocabulary::Lang;
use crate::settings::model::{custom_unit_word, custom_valid, signed_decimal, CustomDueFilter, CustomDueUnit};
use crate::text::{ascii_lower, lemma_decimal_digits, lemma_digit_prefix_of_decimal, ascii_lowercase, ascii_lowercase_string, chars_of, decimal, decimal_value, digit_prefix, is_ascii_digit, push_decimal, push_str, range_is, same_text};

verus! {

/// A due-date condition as matched against a task.
#[derive(Debug, Clone, Copy, PartialEq, Eq, Structural)]
pub enum DueKeyword {
    /// Past its due date and not finished yet.
    Overdue,
    /// Due within `days` calendar days, counting today as the first one.
    Within { days: u64 },
    /// Due within `minutes` from now, to the minute.
    WithinMinutes { minutes: u64 },
}

/// The named horizons, each with a word of its own in every language.
#[derive(Debug, Clone, Copy, PartialEq, Eq, Structural, Hash)]
pub enum DueName {
    Overdue,
    Today,
    Tomorrow,
    Week,
    Month,
    Quarter,
    Year,
    FiscalYear,
}

/// A due-date keyword as the user wrote it: a named horizon or a count.
#[derive(Debug, Clone, Copy, PartialEq, Eq, Structural, Hash)]
pub enum DueSpec {
    Named(DueName),
    /// `@3日`: the next `n` calendar days, today included.
    Days(u32),
    /// `@10分`: the next `n` minutes from now.
    Minutes(u32),
}

/// Whether `word` is one of the spellings of the named horizon `n`.
pub open spec fn names_due(n: DueName, word: Seq<char>) -> bool {
    match n {
        DueName::Overdue => word == "overdue"@ || word == "deadline"@ || word == "期限切れ"@,
        DueName::Today => word == "today"@ || word == "今日"@ || word == "本日"@,
        DueName::Tomorrow => word == "tomorrow"@ || word == "明日"@ || word == "翌日"@,
        DueName::Week => word == "week"@ || word == "weeks"@ || word == "今週"@ || word == "週"@,
        DueName::Month => word == "month"@ || word == "months"@ || word == "今月"@ || word == "月"@,
        DueName::Quarter => word == "quarter"@ || word == "period"@ || word == "今期"@ || word == "期"@,
        DueName::Year => word == "year"@ || word == "years"@ || word == "今年"@,
        DueName::FiscalYear => word == "fiscalyear"@ || word == "fiscal-year"@ || word == "今年度"@ || word == "年度"@,
    }
}

/// Every spelling of `n`, English first.
pub open spec fn due_spellings(n: DueName) -> Seq<Seq<char>> {
    match n {
        DueName::Overdue => seq!["overdue"@, "deadline"@, "期限切れ"@],
        DueName::Today => seq!["today"@, "今日"@, "本日"@],
        DueName::Tomorrow => seq!["tomorrow"@, "明日"@, "翌日"@],
        DueName::Week => seq!["week"@, "weeks"@, "今週"@, "週"@],
        DueName::Month => seq!["month"@, "months"@, "今月"@, "月"@],
        DueName::Quarter => seq!["quarter"@, "period"@, "今期"@, "期"@],
        DueName::Year => seq!["year"@, "years"@, "今年"@],
        DueName::FiscalYear => seq!["fiscalyear"@, "fiscal-year"@, "今年度"@, "年度"@],
    }
}

/// The English spelling of `n`, also its key in the internal query.
pub open spec fn due_english(n: DueName) -> Seq<char> {
    match n {
        DueName::Overdue => "overdue"@,
        DueName::Today => "today"@,
        DueName::Tomorrow => "tomorrow"@,
        DueName::Week => "week"@,
        DueName::Month => "month"@,
        DueName::Quarter => "quarter"@,
        DueName::Year => "year"@,
        DueName::FiscalYear => "fiscalyear"@,
    }
}

/// The Japanese spelling of `n`.
pub open spec fn due_japanese(n: DueName) -> Seq<char> {
    match n {
        DueName::Overdue => "期限切れ"@,
        DueName::Today => "今日"@,
        DueName::Tomorrow => "明日"@,
        DueName::Week => "今週"@,
        DueName::Month => "今月"@,
        DueName::Quarter => "今期"@,
        DueName::Year => "今年"@,
        DueName::FiscalYear => "今年度"@,
    }
}

/// The named horizon `word` spells, the first in table order.
pub open spec fn named_due(word: Seq<char>) -> Option<DueName> {
    if names_due(DueName::Overdue, word) {
        Some(DueName::Overdue)
    } else if names_due(DueName::Today, word) {
        Some(DueName::Today)
    } else if names_due(DueName::Tomorrow, word) {
        Some(DueName::Tomorrow)
    } else if names_due(DueName::Week, word) {
        Some(DueName::Week)
    } else if names_due(DueName::Month, word) {
        Some(DueName::Month)
    } else if names_due(DueName::Quarter, word) {
        Some(DueName::Quarter)
    } else if names_due(DueName::Year, word) {
        Some(DueName::Year)
    } else if names_due(DueName::FiscalYear, word) {
        Some(DueName::FiscalYear)
    } else {
        None
    }
}

/// Minutes one sub-day unit covers.
pub open spec fn minute_unit(unit: Seq<char>) -> Option<u32> {
    if unit == "分"@ {
        Some(1)
    } else if unit == "minute"@ {
        Some(1)
    } else if unit == "minutes"@ {
        Some(1)
    } else if unit == "min"@ {
        Some(1)
    } else if unit == "時間"@ {
        Some(60)
    } else if unit == "時"@ {
        Some(60)
    } else if unit == "hour"@ {
        Some(60)
    } else if unit == "hours"@ {
        Some(60)
    } else if unit == "h"@ {
        Some(60)
    } else {
        None
    }
}

/// Days one unit covers.
pub open spec fn day_unit(unit: Seq<char>) -> Option<u32> {
    if unit == "年度"@ {
        Some(365)
    } else if unit == "fiscalyear"@ {
        Some(365)
    } else if unit == "日"@ {
        Some(1)
    } else if unit == "day"@ {
        Some(1)
    } else if unit == "days"@ {
        Some(1)
    } else if unit == "d"@ {
        Some(1)
    } else if unit == "週間"@ {
        Some(7)
    } else if unit == "週"@ {
        Some(7)
    } else if unit == "week"@ {
        Some(7)
    } else if unit == "weeks"@ {
        Some(7)
    } else if unit == "か月"@ {
        Some(30)
    } else if unit == "ヶ月"@ {
        Some(30)
    } else if unit == "ケ月"@ {
        Some(30)
    } else if unit == "カ月"@ {
        Some(30)
    } else if unit == "月"@ {
        Some(30)
    } else if unit == "month"@ {
        Some(30)
    } else if unit == "months"@ {
        Some(30)
    } else if unit == "期"@ {
        Some(90)
    } else if unit == "q"@ {
        Some(90)
    } else if unit == "period"@ {
        Some(90)
    } else if unit == "年"@ {
        Some(365)
    } else if unit == "year"@ {
        Some(365)
    } else if unit == "years"@ {
        Some(365)
    } else {
        None
    }
}

/// What the `@<number><unit>` form reads as.
pub open spec fn counted_due(w: Seq<char>) -> Option<DueSpec> {
    let digits = digit_prefix(w);
    let unit = w.skip(digits.len() as int);
    let count = decimal_value(digits);
    if digits.len() == 0 || count > u32::MAX {
        None
    } else {
        let base = if count == 0 {
            1
        } else {
            count
        };
        match minute_unit(unit) {
            Some(per) => if base * per > u32::MAX {
                None
            } else {
                Some(DueSpec::Minutes((base * per) as u32))
            },
            None => match day_unit(unit) {
                Some(per) => if base * per > u32::MAX {
                    None
                } else {
                    Some(DueSpec::Days((base * per) as u32))
                },
                None => None,
            },
        }
    }
}

/// What [`DueSpec::parse`] reads a word as, once ASCII case is folded.
pub open spec fn parse_due(word: Seq<char>) -> Option<DueSpec> {
    let w = ascii_lowercase(word);
    match named_due(w) {
        Some(n) => Some(DueSpec::Named(n)),
        None => if w == "明後日"@ {
            Some(DueSpec::Days(3))
        } else {
            counted_due(w)
        },
    }
}

pub open spec fn named_keyword(n: DueName) -> DueKeyword {
    match n {
        DueName::Overdue => DueKeyword::Overdue,
        DueName::Today => DueKeyword::Within { days: 1 },
        DueName::Tomorrow => DueKeyword::Within { days: 2 },
        DueName::Week => DueKeyword::Within { days: 7 },
        DueName::Month => DueKeyword::Within { days: 30 },
        DueName::Quarter => DueKeyword::Within { days: 90 },
        DueName::Year | DueName::FiscalYear => DueKeyword::Within { days: 365 },
    }
}

/// The condition a keyword stands for: a count of zero reads as one.
pub open spec fn spec_keyword(spec: DueSpec) -> DueKeyword {
    match spec {
        DueSpec::Named(n) => named_keyword(n),
        DueSpec::Days(d) => DueKeyword::Within { days: if d == 0 { 1 } else { d as u64 } },
        DueSpec::Minutes(m) => DueKeyword::WithinMinutes { minutes: if m == 0 { 1 } else { m as u64 } },
    }
}

/// The language-neutral spelling of a keyword.
pub open spec fn due_key(spec: DueSpec) -> Seq<char> {
    match spec {
        DueSpec::Named(n) => due_english(n),
        DueSpec::Days(d) => decimal(d as nat) + "d"@,
        DueSpec::Minutes(m) => decimal(m as nat) + "min"@,
    }
}

/// The spelling written into the search box for `lang`.
pub open spec fn due_spelled(spec: DueSpec, lang: Lang) -> Seq<char> {
    match (spec, lang) {
        (DueSpec::Named(n), Lang::En) => due_english(n),
        (DueSpec::Named(n), Lang::Ja) => due_japanese(n),
        (DueSpec::Days(d), Lang::En) => decimal(d as nat) + "days"@,
        (DueSpec::Days(d), Lang::Ja) => decimal(d as nat) + "日"@,
        (DueSpec::Minutes(m), Lang::En) => if m % 60 == 0 {
            decimal((m / 60) as nat) + "hours"@
        } else {
            decimal(m as nat) + "min"@
        },
        (DueSpec::Minutes(m), Lang::Ja) => if m % 60 == 0 {
            decimal((m / 60) as nat) + "時間"@
        } else {
            decimal(m as nat) + "分"@
        },
    }
}

/// Every spelling of a keyword: all of a named horizon's, or its two written forms.
pub open spec fn due_all_spellings(spec: DueSpec) -> Seq<Seq<char>> {
    match spec {
        DueSpec::Named(n) => due_spellings(n),
        _ => seq![due_spelled(spec, Lang::En), due_spelled(spec, Lang::Ja)],
    }
}

fn names_due_word(n: DueName, word: &str) -> (r: bool)
    ensures
        r == names_due(n, word@),
{
    match n {
        DueName::Overdue => same_text(word, "overdue") || same_text(word, "deadline") || same_text(word, "期限切れ"),
        DueName::Today => same_text(word, "today") || same_text(word, "今日") || same_text(word, "本日"),
        DueName::Tomorrow => same_text(word, "tomorrow") || same_text(word, "明日") || same_text(word, "翌日"),
        DueName::Week => same_text(word, "week") || same_text(word, "weeks") || same_text(word, "今週") || same_text(word, "週"),
        DueName::Month => same_text(word, "month") || same_text(word, "months") || same_text(word, "今月") || same_text(word, "月"),
        DueName::Quarter => same_text(word, "quarter") || same_text(word, "period") || same_text(word, "今期") || same_text(word, "期"),
        DueName::Year => same_text(word, "year") || same_text(word, "years") || same_text(word, "今年"),
        DueName::FiscalYear => same_text(word, "fiscalyear") || same_text(word, "fiscal-year") || same_text(word, "今年度") || same_text(word, "年度"),
    }
}

fn minute_unit_of(chars: &Vec<char>, from: usize) -> (r: Option<u32>)
    requires
        from <= chars@.len(),
    ensures
        r == minute_unit(chars@.skip(from as int)),
{
    let n = chars.len();
    proof {
        assert(chars@.subrange(from as int, n as int) =~= chars@.skip(from as int));
    }
    if range_is(chars, from, n, "分") {
        Some(1)
    } else if range_is(chars, from, n, "minute") {
        Some(1)
    } else if range_is(chars, from, n, "minutes") {
        Some(1)
    } else if range_is(chars, from, n, "min") {
        Some(1)
    } else if range_is(chars, from, n, "時間") {
        Some(60)
    } else if range_is(chars, from, n, "時") {
        Some(60)
    } else if range_is(chars, from, n, "hour") {
        Some(60)
    } else if range_is(chars, from, n, "hours") {
        Some(60)
    } else if range_is(chars, from, n, "h") {
        Some(60)
    } else {
        None
    }
}

fn day_unit_of(chars: &Vec<char>, from: usize) -> (r: Option<u32>)
    requires
        from <= chars@.len(),
    ensures
        r == day_unit(chars@.skip(from as int)),
{
    let n = chars.len();
    proof {
        assert(chars@.subrange(from as int, n as int) =~= chars@.skip(from as int));
    }
    if range_is(chars, from, n, "年度") {
        Some(365)
    } else if range_is(chars, from, n, "fiscalyear") {
        Some(365)
    } else if range_is(chars, from, n, "日") {
        Some(1)
    } else if range_is(chars, from, n, "day") {
        Some(1)
    } else if range_is(chars, from, n, "days") {
        Some(1)
    } else if range_is(chars, from, n, "d") {
        Some(1)
    } else if range_is(chars, from, n, "週間") {
        Some(7)
    } else if range_is(chars, from, n, "週") {
        Some(7)
    } else if range_is(chars, from, n, "week") {
        Some(7)
    } else if range_is(chars, from, n, "weeks") {
        Some(7)
    } else if range_is(chars, from, n, "か月") {
        Some(30)
    } else if range_is(chars, from, n, "ヶ月") {
        Some(30)
    } else if range_is(chars, from, n, "ケ月") {
        Some(30)
    } else if range_is(chars, from, n, "カ月") {
        Some(30)
    } else if range_is(chars, from, n, "月") {
        Some(30)
    } else if range_is(chars, from, n, "month") {
        Some(30)
    } else if range_is(chars, from, n, "months") {
        Some(30)
    } else if range_is(chars, from, n, "期") {
        Some(90)
    } else if range_is(chars, from, n, "q") {
        Some(90)
    } else if range_is(chars, from, n, "period") {
        Some(90)
    } else if range_is(chars, from, n, "年") {
        Some(365)
    } else if range_is(chars, from, n, "year") {
        Some(365)
    } else if range_is(chars, from, n, "years") {
        Some(365)
    } else {
        None
    }
}

/// The characters of every due-date word.
pub proof fn lemma_due_words()
    ensures
        "overdue"@ == seq!['o', 'v', 'e', 'r', 'd', 'u', 'e'],
        "deadline"@ == seq!['d', 'e', 'a', 'd', 'l', 'i', 'n', 'e'],
        "期限切れ"@ == seq!['期', '限', '切', 'れ'],
        "today"@ == seq!['t', 'o', 'd', 'a', 'y'],
        "今日"@ == seq!['今', '日'],
        "本日"@ == seq!['本', '日'],
        "tomorrow"@ == seq!['t', 'o', 'm', 'o', 'r', 'r', 'o', 'w'],
        "明日"@ == seq!['明', '日'],
        "翌日"@ == seq!['翌', '日'],
        "week"@ == seq!['w', 'e', 'e', 'k'],
        "weeks"@ == seq!['w', 'e', 'e', 'k', 's'],
        "今週"@ == seq!['今', '週'],
        "週"@ == seq!['週'],
        "month"@ == seq!['m', 'o', 'n', 't', 'h'],
        "months"@ == seq!['m', 'o', 'n', 't', 'h', 's'],
        "今月"@ == seq!['今', '月'],
        "月"@ == seq!['月'],
        "quarter"@ == seq!['q', 'u', 'a', 'r', 't', 'e', 'r'],
        "period"@ == seq!['p', 'e', 'r', 'i', 'o', 'd'],
        "今期"@ == seq!['今', '期'],
        "期"@ == seq!['期'],
        "year"@ == seq!['y', 'e', 'a', 'r'],
        "years"@ == seq!['y', 'e', 'a', 'r', 's'],
        "今年"@ == seq!['今', '年'],
        "fiscalyear"@ == seq!['f', 'i', 's', 'c', 'a', 'l', 'y', 'e', 'a', 'r'],
        "fiscal-year"@ == seq!['f', 'i', 's', 'c', 'a', 'l', '-', 'y', 'e', 'a', 'r'],
        "今年度"@ == seq!['今', '年', '度'],
        "年度"@ == seq!['年', '度'],
        "明後日"@ == seq!['明', '後', '日'],
        "分"@ == seq!['分'],
        "minute"@ == seq!['m', 'i', 'n', 'u', 't', 'e'],
        "minutes"@ == seq!['m', 'i', 'n', 'u', 't', 'e', 's'],
        "min"@ == seq!['m', 'i', 'n'],
        "時間"@ == seq!['時', '間'],
        "時"@ == seq!['時'],
        "hour"@ == seq!['h', 'o', 'u', 'r'],
        "hours"@ == seq!['h', 'o', 'u', 'r', 's'],
        "h"@ == seq!['h'],
        "日"@ == seq!['日'],
        "day"@ == seq!['d', 'a', 'y'],
        "days"@ == seq!['d', 'a', 'y', 's'],
        "d"@ == seq!['d'],
        "週間"@ == seq!['週', '間'],
        "か月"@ == seq!['か', '月'],
        "ヶ月"@ == seq!['ヶ', '月'],
        "ケ月"@ == seq!['ケ', '月'],
        "カ月"@ == seq!['カ', '月'],
        "q"@ == seq!['q'],
        "年"@ == seq!['年'],
        "overdue"@.len() == 7,
        "overdue"@[0] == 'o',
        "overdue"@[1] == 'v',
        "overdue"@[2] == 'e',
        "overdue"@[3] == 'r',
        "overdue"@[4] == 'd',
        "overdue"@[5] == 'u',
        "overdue"@[6] == 'e',
        "deadline"@.len() == 8,
        "deadline"@[0] == 'd',
        "deadline"@[1] == 'e',
        "deadline"@[2] == 'a',
        "deadline"@[3] == 'd',
        "deadline"@[4] == 'l',
        "deadline"@[5] == 'i',
        "deadline"@[6] == 'n',
        "deadline"@[7] == 'e',
        "期限切れ"@.len() == 4,
        "期限切れ"@[0] == '期',
        "期限切れ"@[1] == '限',
        "期限切れ"@[2] == '切',
        "期限切れ"@[3] == 'れ',
        "today"@.len() == 5,
        "today"@[0] == 't',
        "today"@[1] == 'o',
        "today"@[2] == 'd',
        "today"@[3] == 'a',
        "today"@[4] == 'y',
        "今日"@.len() == 2,
        "今日"@[0] == '今',
        "今日"@[1] == '日',
        "本日"@.len() == 2,
        "本日"@[0] == '本',
        "本日"@[1] == '日',
        "tomorrow"@.len() == 8,
        "tomorrow"@[0] == 't',
        "tomorrow"@[1] == 'o',
        "tomorrow"@[2] == 'm',
        "tomorrow"@[3] == 'o',
        "tomorrow"@[4] == 'r',
        "tomorrow"@[5] == 'r',
        "tomorrow"@[6] == 'o',
        "tomorrow"@[7] == 'w',
        "明日"@.len() == 2,
        "明日"@[0] == '明',
        "明日"@[1] == '日',
        "翌日"@.len() == 2,
        "翌日"@[0] == '翌',
        "翌日"@[1] == '日',
        "week"@.len() == 4,
        "week"@[0] == 'w',
        "week"@[1] == 'e',
        "week"@[2] == 'e',
        "week"@[3] == 'k',
        "weeks"@.len() == 5,
        "weeks"@[0] == 'w',
        "weeks"@[1] == 'e',
        "weeks"@[2] == 'e',
        "weeks"@[3] == 'k',
        "weeks"@[4] == 's',
        "今週"@.len() == 2,
        "今週"@[0] == '今',
        "今週"@[1] == '週',
        "週"@.len() == 1,
        "週"@[0] == '週',
        "month"@.len() == 5,
        "month"@[0] == 'm',
        "month"@[1] == 'o',
        "month"@[2] == 'n',
        "month"@[3] == 't',
        "month"@[4] == 'h',
        "months"@.len() == 6,
        "months"@[0] == 'm',
        "months"@[1] == 'o',
        "months"@[2] == 'n',
        "months"@[3] == 't',
        "months"@[4] == 'h',
        "months"@[5] == 's',
        "今月"@.len() == 2,
        "今月"@[0] == '今',
        "今月"@[1] == '月',
        "月"@.len() == 1,
        "月"@[0] == '月',
        "quarter"@.len() == 7,
        "quarter"@[0] == 'q',
        "quarter"@[1] == 'u',
        "quarter"@[2] == 'a',
        "quarter"@[3] == 'r',
        "quarter"@[4] == 't',
        "quarter"@[5] == 'e',
        "quarter"@[6] == 'r',
        "period"@.len() == 6,
        "period"@[0] == 'p',
        "period"@[1] == 'e',
        "period"@[2] == 'r',
        "period"@[3] == 'i',
        "period"@[4] == 'o',
        "period"@[5] == 'd',
        "今期"@.len() == 2,
        "今期"@[0] == '今',
        "今期"@[1] == '期',
        "期"@.len() == 1,
        "期"@[0] == '期',
        "year"@.len() == 4,
        "year"@[0] == 'y',
        "year"@[1] == 'e',
        "year"@[2] == 'a',
        "year"@[3] == 'r',
        "years"@.len() == 5,
        "years"@[0] == 'y',
        "years"@[1] == 'e',
        "years"@[2] == 'a',
        "years"@[3] == 'r',
        "years"@[4] == 's',
        "今年"@.len() == 2,
        "今年"@[0] == '今',
        "今年"@[1] == '年',
        "fiscalyear"@.len() == 10,
        "fiscalyear"@[0] == 'f',
        "fiscalyear"@[1] == 'i',
        "fiscalyear"@[2] == 's',
        "fiscalyear"@[3] == 'c',
        "fiscalyear"@[4] == 'a',
        "fiscalyear"@[5] == 'l',
        "fiscalyear"@[6] == 'y',
        "fiscalyear"@[7] == 'e',
        "fiscalyear"@[8] == 'a',
        "fiscalyear"@[9] == 'r',
        "fiscal-year"@.len() == 11,
        "fiscal-year"@[0] == 'f',
        "fiscal-year"@[1] == 'i',
        "fiscal-year"@[2] == 's',
        "fiscal-year"@[3] == 'c',
        "fiscal-year"@[4] == 'a',
        "fiscal-year"@[5] == 'l',
        "fiscal-year"@[6] == '-',
        "fiscal-year"@[7] == 'y',
        "fiscal-year"@[8] == 'e',
        "fiscal-year"@[9] == 'a',
        "fiscal-year"@[10] == 'r',
        "今年度"@.len() == 3,
        "今年度"@[0] == '今',
        "今年度"@[1] == '年',
        "今年度"@[2] == '度',
        "年度"@.len() == 2,
        "年度"@[0] == '年',
        "年度"@[1] == '度',
        "明後日"@.len() == 3,
        "明後日"@[0] == '明',
        "明後日"@[1] == '後',
        "明後日"@[2] == '日',
        "分"@.len() == 1,
        "分"@[0] == '分',
        "minute"@.len() == 6,
        "minute"@[0] == 'm',
        "minute"@[1] == 'i',
        "minute"@[2] == 'n',
        "minute"@[3] == 'u',
        "minute"@[4] == 't',
        "minute"@[5] == 'e',
        "minutes"@.len() == 7,
        "minutes"@[0] == 'm',
        "minutes"@[1] == 'i',
        "minutes"@[2] == 'n',
        "minutes"@[3] == 'u',
        "minutes"@[4] == 't',
        "minutes"@[5] == 'e',
        "minutes"@[6] == 's',
        "min"@.len() == 3,
        "min"@[0] == 'm',
        "min"@[1] == 'i',
        "min"@[2] == 'n',
        "時間"@.len() == 2,
        "時間"@[0] == '時',
        "時間"@[1] == '間',
        "時"@.len() == 1,
        "時"@[0] == '時',
        "hour"@.len() == 4,
        "hour"@[0] == 'h',
        "hour"@[1] == 'o',
        "hour"@[2] == 'u',
        "hour"@[3] == 'r',
        "hours"@.len() == 5,
        "hours"@[0] == 'h',
        "hours"@[1] == 'o',
        "hours"@[2] == 'u',
        "hours"@[3] == 'r',
        "hours"@[4] == 's',
        "h"@.len() == 1,
        "h"@[0] == 'h',
        "日"@.len() == 1,
        "日"@[0] == '日',
        "day"@.len() == 3,
        "day"@[0] == 'd',
        "day"@[1] == 'a',
        "day"@[2] == 'y',
        "days"@.len() == 4,
        "days"@[0] == 'd',
        "days"@[1] == 'a',
        "days"@[2] == 'y',
        "days"@[3] == 's',
        "d"@.len() == 1,
        "d"@[0] == 'd',
        "週間"@.len() == 2,
        "週間"@[0] == '週',
        "週間"@[1] == '間',
        "か月"@.len() == 2,
        "か月"@[0] == 'か',
        "か月"@[1] == '月',
        "ヶ月"@.len() == 2,
        "ヶ月"@[0] == 'ヶ',
        "ヶ月"@[1] == '月',
        "ケ月"@.len() == 2,
        "ケ月"@[0] == 'ケ',
        "ケ月"@[1] == '月',
        "カ月"@.len() == 2,
        "カ月"@[0] == 'カ',
        "カ月"@[1] == '月',
        "q"@.len() == 1,
        "q"@[0] == 'q',
        "年"@.len() == 1,
        "年"@[0] == '年',
{
    reveal_strlit("overdue");
    reveal_strlit("deadline");
    reveal_strlit("期限切れ");
    reveal_strlit("today");
    reveal_strlit("今日");
    reveal_strlit("本日");
    reveal_strlit("tomorrow");
    reveal_strlit("明日");
    reveal_strlit("翌日");
    reveal_strlit("week");
    reveal_strlit("weeks");
    reveal_strlit("今週");
    reveal_strlit("週");
    reveal_strlit("month");
    reveal_strlit("months");
    reveal_strlit("今月");
    reveal_strlit("月");
    reveal_strlit("quarter");
    reveal_strlit("period");
    reveal_strlit("今期");
    reveal_strlit("期");
    reveal_strlit("year");
    reveal_strlit("years");
    reveal_strlit("今年");
    reveal_strlit("fiscalyear");
    reveal_strlit("fiscal-year");
    reveal_strlit("今年度");
    reveal_strlit("年度");
    reveal_strlit("明後日");
    reveal_strlit("分");
    reveal_strlit("minute");
    reveal_strlit("minutes");
    reveal_strlit("min");
    reveal_strlit("時間");
    reveal_strlit("時");
    reveal_strlit("hour");
    reveal_strlit("hours");
    reveal_strlit("h");
    reveal_strlit("日");
    reveal_strlit("day");
    reveal_strlit("days");
    reveal_strlit("d");
    reveal_strlit("週間");
    reveal_strlit("か月");
    reveal_strlit("ヶ月");
    reveal_strlit("ケ月");
    reveal_strlit("カ月");
    reveal_strlit("q");
    reveal_strlit("年");
    assert("overdue"@ =~= seq!['o', 'v', 'e', 'r', 'd', 'u', 'e']);
    assert("deadline"@ =~= seq!['d', 'e', 'a', 'd', 'l', 'i', 'n', 'e']);
    assert("期限切れ"@ =~= seq!['期', '限', '切', 'れ']);
    assert("today"@ =~= seq!['t', 'o', 'd', 'a', 'y']);
    assert("今日"@ =~= seq!['今', '日']);
    assert("本日"@ =~= seq!['本', '日']);
    assert("tomorrow"@ =~= seq!['t', 'o', 'm', 'o', 'r', 'r', 'o', 'w']);
    assert("明日"@ =~= seq!['明', '日']);
    assert("翌日"@ =~= seq!['翌', '日']);
    assert("week"@ =~= seq!['w', 'e', 'e', 'k']);
    assert("weeks"@ =~= seq!['w', 'e', 'e', 'k', 's']);
    assert("今週"@ =~= seq!['今', '週']);
    assert("週"@ =~= seq!['週']);
    assert("month"@ =~= seq!['m', 'o', 'n', 't', 'h']);
    assert("months"@ =~= seq!['m', 'o', 'n', 't', 'h', 's']);
    assert("今月"@ =~= seq!['今', '月']);
    assert("月"@ =~= seq!['月']);
    assert("quarter"@ =~= seq!['q', 'u', 'a', 'r', 't', 'e', 'r']);
    assert("period"@ =~= seq!['p', 'e', 'r', 'i', 'o', 'd']);
    assert("今期"@ =~= seq!['今', '期']);
    assert("期"@ =~= seq!['期']);
    assert("year"@ =~= seq!['y', 'e', 'a', 'r']);
    assert("years"@ =~= seq!['y', 'e', 'a', 'r', 's']);
    assert("今年"@ =~= seq!['今', '年']);
    assert("fiscalyear"@ =~= seq!['f', 'i', 's', 'c', 'a', 'l', 'y', 'e', 'a', 'r']);
    assert("fiscal-year"@ =~= seq!['f', 'i', 's', 'c', 'a', 'l', '-', 'y', 'e', 'a', 'r']);
    assert("今年度"@ =~= seq!['今', '年', '度']);
    assert("年度"@ =~= seq!['年', '度']);
    assert("明後日"@ =~= seq!['明', '後', '日']);
    assert("分"@ =~= seq!['分']);
    assert("minute"@ =~= seq!['m', 'i', 'n', 'u', 't', 'e']);
    assert("minutes"@ =~= seq!['m', 'i', 'n', 'u', 't', 'e', 's']);
    assert("min"@ =~= seq!['m', 'i', 'n']);
    assert("時間"@ =~= seq!['時', '間']);
    assert("時"@ =~= seq!['時']);
    assert("hour"@ =~= seq!['h', 'o', 'u', 'r']);
    assert("hours"@ =~= seq!['h', 'o', 'u', 'r', 's']);
    assert("h"@ =~= seq!['h']);
    assert("日"@ =~= seq!['日']);
    assert("day"@ =~= seq!['d', 'a', 'y']);
    assert("days"@ =~= seq!['d', 'a', 'y', 's']);
    assert("d"@ =~= seq!['d']);
    assert("週間"@ =~= seq!['週', '間']);
    assert("か月"@ =~= seq!['か', '月']);
    assert("ヶ月"@ =~= seq!['ヶ', '月']);
    assert("ケ月"@ =~= seq!['ケ', '月']);
    assert("カ月"@ =~= seq!['カ', '月']);
    assert("q"@ =~= seq!['q']);
    assert("年"@ =~= seq!['年']);
}

/// Reads the run of ASCII digits at the start of `chars`: where it ends, and
/// its value when that fits in a `u32`.
fn read_digits(chars: &Vec<char>) -> (r: (usize, Option<u32>))
    ensures
        r.0 <= chars@.len(),
        chars@.take(r.0 as int) == digit_prefix(chars@),
        r.0 == digit_prefix(chars@).len(),
        r.1 matches Some(v) ==> v == decimal_value(digit_prefix(chars@)),
        r.1 is None ==> decimal_value(digit_prefix(chars@)) > u32::MAX,
{
    let n = chars.len();
    let mut i: usize = 0;
    let mut value: u64 = 0;
    let mut overflow = false;
    while i < n && '0' <= chars[i] && chars[i] <= '9'
        invariant
            n == chars@.len(),
            i <= n,
            forall|k: int| 0 <= k < i ==> is_ascii_digit(#[trigger] chars@[k]),
            !overflow ==> value == decimal_value(chars@.take(i as int)) && value <= u32::MAX,
            overflow ==> decimal_value(chars@.take(i as int)) > u32::MAX,
        decreases n - i,
    {
        let d = ((chars[i] as u32) - ('0' as u32)) as u64;
        proof {
            assert(chars@.take(i + 1).drop_last() =~= chars@.take(i as int));
        }
        if !overflow {
            value = value * 10 + d;
            if value > 0xffff_ffff {
                overflow = true;
            }
        }
        i = i + 1;
    }
    proof {
        lemma_digit_prefix_take(chars@, i as int);
    }
    if overflow {
        (i, None)
    } else {
        (i, Some(value as u32))
    }
}

proof fn lemma_digit_prefix_take(s: Seq<char>, i: int)
    requires
        0 <= i <= s.len(),
        forall|k: int| 0 <= k < i ==> is_ascii_digit(#[trigger] s[k]),
        i == s.len() || !is_ascii_digit(s[i]),
    ensures
        digit_prefix(s) == s.take(i),
    decreases i,
{
    if i == 0 {
        assert(s.take(0) =~= Seq::<char>::empty());
    } else {
        lemma_digit_prefix_take(s.drop_first(), i - 1);
        assert(seq![s[0]] + s.drop_first().take(i - 1) =~= s.take(i));
    }
}

/// Parses the `@<number><unit>` form, e.g. `10日`, `3days`, `2period`.
///
/// The count includes today, matching the fixed keywords: `@3days` covers today,
/// tomorrow and the day after. A count of zero is read as one.
pub fn parse_counted(keyword: &str) -> (r: Option<DueSpec>)
    ensures
        r == counted_due(keyword@),
{
    let chars = chars_of(keyword);
    let (end, count) = read_digits(&chars);
    if end == 0 {
        return None;
    }
    let count = match count {
        Some(c) => c,
        None => return None,
    };
    let base: u64 = if count == 0 { 1 } else { count as u64 };
    if let Some(per) = minute_unit_of(&chars, end) {
        assert(per <= 60);
        assert(base * (per as u64) <= 0xffff_ffffu64 * 60) by (nonlinear_arith)
            requires
                base <= 0xffff_ffff,
                per <= 60,
        ;
        let total = base * (per as u64);
        if total > 0xffff_ffff {
            return None;
        }
        return Some(DueSpec::Minutes(total as u32));
    }
    match day_unit_of(&chars, end) {
        Some(per) => {
            assert(per <= 365);
            assert(base * (per as u64) <= 0xffff_ffffu64 * 365) by (nonlinear_arith)
                requires
                    base <= 0xffff_ffff,
                    per <= 365,
            ;
            let total = base * (per as u64);
            if total > 0xffff_ffff {
                None
            } else {
                Some(DueSpec::Days(total as u32))
            }
        },
        None => None,
    }
}

impl DueName {
    /// Every named horizon, in the order the sidebar and suggestions list them.
    pub fn all() -> (r: Vec<DueName>)
        ensures
            r@ == seq![
                DueName::Overdue,
                DueName::Today,
                DueName::Tomorrow,
                DueName::Week,
                DueName::Month,
                DueName::Quarter,
                DueName::Year,
                DueName::FiscalYear,
            ],
    {
        vec![
            DueName::Overdue,
            DueName::Today,
            DueName::Tomorrow,
            DueName::Week,
            DueName::Month,
            DueName::Quarter,
            DueName::Year,
            DueName::FiscalYear,
        ]
    }

    fn keyword(self) -> (r: DueKeyword)
        ensures
            r == named_keyword(self),
    {
        match self {
            DueName::Overdue => DueKeyword::Overdue,
            DueName::Today => DueKeyword::Within { days: 1 },
            DueName::Tomorrow => DueKeyword::Within { days: 2 },
            DueName::Week => DueKeyword::Within { days: 7 },
            DueName::Month => DueKeyword::Within { days: 30 },
            DueName::Quarter => DueKeyword::Within { days: 90 },
            DueName::Year | DueName::FiscalYear => DueKeyword::Within { days: 365 },
        }
    }

    fn spellings(self) -> (r: Vec<&'static str>)
        ensures
            r@.map_values(|w: &'static str| w@) == due_spellings(self),
    {
        let r = match self {
            DueName::Overdue => vec!["overdue", "deadline", "期限切れ"],
            DueName::Today => vec!["today", "今日", "本日"],
            DueName::Tomorrow => vec!["tomorrow", "明日", "翌日"],
            DueName::Week => vec!["week", "weeks", "今週", "週"],
            DueName::Month => vec!["month", "months", "今月", "月"],
            DueName::Quarter => vec!["quarter", "period", "今期", "期"],
            DueName::Year => vec!["year", "years", "今年"],
            DueName::FiscalYear => vec!["fiscalyear", "fiscal-year", "今年度", "年度"],
        };
        assert(r@.map_values(|w: &'static str| w@) =~= due_spellings(self));
        r
    }

    fn english(self) -> (r: &'static str)
        ensures
            r@ == due_english(self),
    {
        match self {
            DueName::Overdue => "overdue",
            DueName::Today => "today",
            DueName::Tomorrow => "tomorrow",
            DueName::Week => "week",
            DueName::Month => "month",
            DueName::Quarter => "quarter",
            DueName::Year => "year",
            DueName::FiscalYear => "fiscalyear",
        }
    }

    fn japanese(self) -> (r: &'static str)
        ensures
            r@ == due_japanese(self),
    {
        match self {
            DueName::Overdue => "期限切れ",
            DueName::Today => "今日",
            DueName::Tomorrow => "明日",
            DueName::Week => "今週",
            DueName::Month => "今月",
            DueName::Quarter => "今期",
            DueName::Year => "今年",
            DueName::FiscalYear => "今年度",
        }
    }
}

fn named_due_of(word: &str) -> (r: Option<DueName>)
    ensures
        r == named_due(word@),
{
    if names_due_word(DueName::Overdue, word) {
        Some(DueName::Overdue)
    } else if names_due_word(DueName::Today, word) {
        Some(DueName::Today)
    } else if names_due_word(DueName::Tomorrow, word) {
        Some(DueName::Tomorrow)
    } else if names_due_word(DueName::Week, word) {
        Some(DueName::Week)
    } else if names_due_word(DueName::Month, word) {
        Some(DueName::Month)
    } else if names_due_word(DueName::Quarter, word) {
        Some(DueName::Quarter)
    } else if names_due_word(DueName::Year, word) {
        Some(DueName::Year)
    } else if names_due_word(DueName::FiscalYear, word) {
        Some(DueName::FiscalYear)
    } else {
        None
    }
}

fn strings_of(words: Vec<&'static str>) -> (r: Vec<String>)
    ensures
        r@.map_values(|s: String| s@) == words@.map_values(|w: &'static str| w@),
{
    let mut out: Vec<String> = Vec::new();
    let mut i: usize = 0;
    while i < words.len()
        invariant
            i <= words@.len(),
            out@.len() == i,
            forall|k: int| 0 <= k < i ==> #[trigger] out@[k]@ == words@[k]@,
        decreases words@.len() - i,
    {
        out.push(String::from_str(words[i]));
        i = i + 1;
    }
    assert(out@.map_values(|s: String| s@) =~= words@.map_values(|w: &'static str| w@));
    out
}

impl DueSpec {
    /// Parses the text after the `@`, e.g. `today`, `今日` or `10日`.
    ///
    /// The input is expected to be folded already, but ASCII case is folded
    /// here too so direct callers stay simple.
    pub fn parse(word: &str) -> (r: Option<Self>)
        ensures
            r == parse_due(word@),
    {
        let lower = ascii_lowercase_string(word);
        match named_due_of(lower.as_str()) {
            Some(n) => Some(DueSpec::Named(n)),
            None => if same_text(lower.as_str(), "明後日") {
                Some(DueSpec::Days(3))
            } else {
                parse_counted(lower.as_str())
            },
        }
    }

    /// Every spelling of this keyword in every language, for matching what is
    /// being typed against it.
    pub fn spellings(self) -> (r: Vec<String>)
        ensures
            r@.map_values(|s: String| s@) == due_all_spellings(self),
    {
        match self {
            DueSpec::Named(name) => strings_of(name.spellings()),
            _ => {
                let r = vec![self.spell(Lang::En), self.spell(Lang::Ja)];
                assert(r@.map_values(|s: String| s@) =~= due_all_spellings(self));
                r
            },
        }
    }

    /// The condition this keyword stands for.
    pub fn keyword(self) -> (r: DueKeyword)
        ensures
            r == spec_keyword(self),
    {
        match self {
            DueSpec::Named(name) => name.keyword(),
            DueSpec::Days(days) => DueKeyword::Within {
                days: if days == 0 { 1 } else { days as u64 },
            },
            DueSpec::Minutes(minutes) => DueKeyword::WithinMinutes {
                minutes: if minutes == 0 { 1 } else { minutes as u64 },
            },
        }
    }

    /// The language-neutral spelling kept in the internal query.
    pub fn key(self) -> (r: String)
        ensures
            r@ == due_key(self),
    {
        match self {
            DueSpec::Named(name) => String::from_str(name.english()),
            DueSpec::Days(days) => {
                let mut out = String::new();
                push_decimal(&mut out, days);
                push_str(&mut out, "d");
                out
            },
            DueSpec::Minutes(minutes) => {
                let mut out = String::new();
                push_decimal(&mut out, minutes);
                push_str(&mut out, "min");
                out
            },
        }
    }

    /// Reads back what [`Self::key`] wrote.
    pub fn from_key(key: &str) -> (r: Option<Self>)
        ensures
            r == parse_due(key@),
    {
        Self::parse(key)
    }

    /// The spelling written into the search box for `lang`.
    pub fn spell(self, lang: Lang) -> (r: String)
        ensures
            r@ == due_spelled(self, lang),
    {
        let mut out = String::new();
        match (self, lang) {
            (DueSpec::Named(name), Lang::En) => push_str(&mut out, name.english()),
            (DueSpec::Named(name), Lang::Ja) => push_str(&mut out, name.japanese()),
            (DueSpec::Days(days), Lang::En) => {
                push_decimal(&mut out, days);
                push_str(&mut out, "days");
            },
            (DueSpec::Days(days), Lang::Ja) => {
                push_decimal(&mut out, days);
                push_str(&mut out, "日");
            },
            (DueSpec::Minutes(minutes), Lang::En) => if minutes % 60 == 0 {
                push_decimal(&mut out, minutes / 60);
                push_str(&mut out, "hours");
            } else {
                push_decimal(&mut out, minutes);
                push_str(&mut out, "min");
            },
            (DueSpec::Minutes(minutes), Lang::Ja) => if minutes % 60 == 0 {
                push_decimal(&mut out, minutes / 60);
                push_str(&mut out, "時間");
            } else {
                push_decimal(&mut out, minutes);
                push_str(&mut out, "分");
            },
        }
        assert(out@ =~= due_spelled(self, lang));
        out
    }
}

impl DueKeyword {
    /// Parses the text after the `@`, e.g. `today` or `10日`.
    pub fn parse(keyword: &str) -> (r: Option<Self>)
        ensures
            r == match parse_due(keyword@) {
                Some(spec) => Some(spec_keyword(spec)),
                None => None,
            },
    {
        match DueSpec::parse(keyword) {
            Some(spec) => Some(spec.keyword()),
            None => None,
        }
    }
}


/// Lowercasing ASCII leaves a text without capitals unchanged.
proof fn lemma_no_capitals(w: Seq<char>)
    requires
        forall|i: int| 0 <= i < w.len() ==> !('A' <= #[trigger] w[i] && w[i] <= 'Z'),
    ensures
        ascii_lowercase(w) == w,
{
    assert(ascii_lowercase(w) =~= w);
}

/// A count followed by a unit word reads back as the count and that unit.
proof fn lemma_counted(n: nat, unit: Seq<char>)
    requires
        1 <= n <= u32::MAX,
        unit.len() > 0,
        !is_ascii_digit(unit[0]),
        forall|i: int| 0 <= i < unit.len() ==> !('A' <= #[trigger] unit[i] && unit[i] <= 'Z'),
    ensures
        ({
            let w = decimal(n) + unit;
            &&& ascii_lowercase(w) == w
            &&& digit_prefix(w) == decimal(n)
            &&& w.skip(decimal(n).len() as int) == unit
            &&& decimal_value(digit_prefix(w)) == n
            &&& is_ascii_digit(w[0])
        }),
{
    let w = decimal(n) + unit;
    lemma_decimal_digits(n);
    lemma_digit_prefix_of_decimal(n, unit);
    assert(w.skip(decimal(n).len() as int) =~= unit);
    assert forall|i: int| 0 <= i < w.len() implies !('A' <= #[trigger] w[i] && w[i] <= 'Z') by {
        if i < decimal(n).len() {
            assert(is_ascii_digit(decimal(n)[i]));
        } else {
            assert(w[i] == unit[i - decimal(n).len()]);
        }
    }
    lemma_no_capitals(w);
    assert(w[0] == decimal(n)[0]);
}

/// A word starting with a digit is neither a named horizon nor a day word.
proof fn lemma_digit_start_not_named(w: Seq<char>)
    requires
        w.len() > 0,
        is_ascii_digit(w[0]),
    ensures
        named_due(w) is None,
        w != "明後日"@,
{
    lemma_due_words();
    assert(!names_due(DueName::Overdue, w));
    assert(!names_due(DueName::Today, w));
    assert(!names_due(DueName::Tomorrow, w));
    assert(!names_due(DueName::Week, w));
    assert(!names_due(DueName::Month, w));
    assert(!names_due(DueName::Quarter, w));
    assert(!names_due(DueName::Year, w));
    assert(!names_due(DueName::FiscalYear, w));
}

/// The units that counted keywords are written with.
proof fn lemma_written_units()
    ensures
        minute_unit("d"@) is None,
        day_unit("d"@) == Some(1u32),
        minute_unit("days"@) is None,
        day_unit("days"@) == Some(1u32),
        minute_unit("日"@) is None,
        day_unit("日"@) == Some(1u32),
        minute_unit("min"@) == Some(1u32),
        minute_unit("分"@) == Some(1u32),
        minute_unit("hours"@) == Some(60u32),
        minute_unit("時間"@) == Some(60u32),
{
    lemma_due_words();
}

/// `<count><unit>` reads back as the count scaled by the unit.
proof fn lemma_parse_counted_word(n: nat, unit: Seq<char>)
    requires
        1 <= n <= u32::MAX,
        unit.len() > 0,
        !is_ascii_digit(unit[0]),
        forall|i: int| 0 <= i < unit.len() ==> !('A' <= #[trigger] unit[i] && unit[i] <= 'Z'),
    ensures
        parse_due(decimal(n) + unit) == counted_due(decimal(n) + unit),
        counted_due(decimal(n) + unit) == (match minute_unit(unit) {
            Some(per) => if n * per > u32::MAX {
                None
            } else {
                Some(DueSpec::Minutes((n * per) as u32))
            },
            None => match day_unit(unit) {
                Some(per) => if n * per > u32::MAX {
                    None
                } else {
                    Some(DueSpec::Days((n * per) as u32))
                },
                None => None,
            },
        }),
{
    lemma_counted(n, unit);
    lemma_digit_start_not_named(decimal(n) + unit);
}

proof fn lemma_named_round_trip(n: DueName)
    ensures
        parse_due(due_english(n)) == Some(DueSpec::Named(n)),
        parse_due(due_japanese(n)) == Some(DueSpec::Named(n)),
{
    lemma_due_words();
    lemma_no_capitals(due_english(n));
    lemma_no_capitals(due_japanese(n));
    match n {
        DueName::Overdue => {},
        DueName::Today => {},
        DueName::Tomorrow => {},
        DueName::Week => {},
        DueName::Month => {},
        DueName::Quarter => {},
        DueName::Year => {},
        DueName::FiscalYear => {},
    }
}

/// A keyword reads back from its key and from its spelling in either
/// language, so the internal query and the search box keep meaning the same
/// horizon. Counts of zero are left out: they are written as `0…` and read
/// back as one.
pub proof fn law_due_spec_round_trip(spec: DueSpec, lang: Lang)
    requires
        spec matches DueSpec::Days(d) ==> d >= 1,
        spec matches DueSpec::Minutes(m) ==> m >= 1,
    ensures
        parse_due(due_key(spec)) == Some(spec),
        parse_due(due_spelled(spec, lang)) == Some(spec),
{
    lemma_due_words();
    lemma_written_units();
    match spec {
        DueSpec::Named(n) => {
            lemma_named_round_trip(n);
            assert(parse_due(due_key(spec)) == Some(spec));
        },
        DueSpec::Days(d) => {
            lemma_parse_counted_word(d as nat, "d"@);
            lemma_parse_counted_word(d as nat, "days"@);
            lemma_parse_counted_word(d as nat, "日"@);
            assert(parse_due(due_key(spec)) == Some(spec));
            assert(parse_due(decimal(d as nat) + "days"@) == Some(spec));
            assert(parse_due(decimal(d as nat) + "日"@) == Some(spec));
        },
        DueSpec::Minutes(m) => {
            lemma_parse_counted_word(m as nat, "min"@);
            lemma_parse_counted_word(m as nat, "分"@);
            assert(m as nat * 1 == m);
            assert(minute_unit("min"@) == Some(1u32));
            assert(due_key(spec) == decimal(m as nat) + "min"@);
            assert(parse_due(due_key(spec)) == Some(spec));
            if m % 60 == 0 {
                lemma_parse_counted_word((m / 60) as nat, "hours"@);
                lemma_parse_counted_word((m / 60) as nat, "時間"@);
                assert((m / 60) as nat * 60 == m);
                assert(parse_due(decimal((m / 60) as nat) + "hours"@) == Some(spec));
            } else {
                assert(parse_due(decimal(m as nat) + "分"@) == Some(spec));
            }
        },
    }
}


/// The search text of a saved custom due filter (`@` and what follows)
/// reads back as the horizon the filter stands for: its minutes, its hours
/// counted in minutes, or its days.
pub proof fn law_a_custom_filter_query_reads_back(f: CustomDueFilter)
    requires
        custom_valid(f),
    ensures
        ({
            let query = seq!['@'] + signed_decimal(f.value as int) + custom_unit_word(f.unit);
            let expected = match f.unit {
                CustomDueUnit::Minute => DueSpec::Minutes(f.value as u32),
                CustomDueUnit::Hour => DueSpec::Minutes((f.value * 60) as u32),
                CustomDueUnit::Day => DueSpec::Days(f.value as u32),
            };
            &&& parse_due(query.drop_first()) == Some(expected)
            &&& spec_keyword(expected) == match f.unit {
                CustomDueUnit::Minute => DueKeyword::WithinMinutes { minutes: f.value as u64 },
                CustomDueUnit::Hour => DueKeyword::WithinMinutes { minutes: (f.value * 60) as u64 },
                CustomDueUnit::Day => DueKeyword::Within { days: f.value as u64 },
            }
        }),
{
    lemma_due_words();
    reveal_strlit("minutes");
    reveal_strlit("hours");
    reveal_strlit("days");
    let n = f.value as nat;
    let word = custom_unit_word(f.unit);
    let query = seq!['@'] + signed_decimal(f.value as int) + word;
    assert(query.drop_first() =~= decimal(n) + word);
    lemma_parse_counted_word(n, word);
    assert(minute_unit("minutes"@) == Some(1u32));
    assert(minute_unit("hours"@) == Some(60u32));
    assert(minute_unit("days"@) is None);
    assert(day_unit("days"@) == Some(1u32));
    match f.unit {
        CustomDueUnit::Minute => {
            assert(word == "minutes"@);
            assert(n <= 43_200);
            assert(n * 1 == n);
            assert(parse_due(decimal(n) + word) == Some(DueSpec::Minutes(f.value as u32)));
        },
        CustomDueUnit::Hour => {
            assert(word == "hours"@);
            assert(n <= 8_760);
            assert(n * 60 == f.value * 60);
            assert(parse_due(decimal(n) + word) == Some(DueSpec::Minutes((f.value * 60) as u32)));
        },
        CustomDueUnit::Day => {
            assert(word == "days"@);
            assert(n <= 3_650);
            assert(n * 1 == n);
            assert(parse_due(decimal(n) + word) == Some(DueSpec::Days(f.value as u32)));
        },
    }
}



proof fn lemma_day_word(n: nat, unit: Seq<char>, per: nat)
    requires
        1 <= n,
        1 <= per <= 1000,
        unit.len() > 0,
        !is_ascii_digit(unit[0]),
        forall|i: int| 0 <= i < unit.len() ==> !('A' <= #[trigger] unit[i] && unit[i] <= 'Z'),
        minute_unit(unit) is None,
        day_unit(unit) == Some(per as u32),
    ensures
        n * per <= u32::MAX ==> parse_due(decimal(n) + unit) == Some(DueSpec::Days((n * per) as u32)),
{
    if n * per <= u32::MAX {
        assert(n <= n * per) by (nonlinear_arith)
            requires
                per >= 1,
        {
        }
        lemma_parse_counted_word(n, unit);
    }
}

proof fn lemma_minute_word(n: nat, unit: Seq<char>, per: nat)
    requires
        1 <= n,
        1 <= per <= 1000,
        unit.len() > 0,
        !is_ascii_digit(unit[0]),
        forall|i: int| 0 <= i < unit.len() ==> !('A' <= #[trigger] unit[i] && unit[i] <= 'Z'),
        minute_unit(unit) == Some(per as u32),
    ensures
        n * per <= u32::MAX ==> parse_due(decimal(n) + unit) == Some(DueSpec::Minutes((n * per) as u32)),
{
    if n * per <= u32::MAX {
        assert(n <= n * per) by (nonlinear_arith)
            requires
                per >= 1,
        {
        }
        lemma_parse_counted_word(n, unit);
    }
}

/// A count followed by a day word counts one day each.
#[verifier::rlimit(40)]
pub proof fn law_counted_days(n: nat)
    requires
        n >= 1,
    ensures
        n * 1 <= u32::MAX ==> parse_due(decimal(n) + "日"@) == Some(DueSpec::Days((n * 1) as u32)),
        n * 1 <= u32::MAX ==> parse_due(decimal(n) + "day"@) == Some(DueSpec::Days((n * 1) as u32)),
        n * 1 <= u32::MAX ==> parse_due(decimal(n) + "days"@) == Some(DueSpec::Days((n * 1) as u32)),
        n * 1 <= u32::MAX ==> parse_due(decimal(n) + "d"@) == Some(DueSpec::Days((n * 1) as u32)),
{
    lemma_due_words();
    lemma_day_word(n, "日"@, 1);
    lemma_day_word(n, "day"@, 1);
    lemma_day_word(n, "days"@, 1);
    lemma_day_word(n, "d"@, 1);
}

/// A count followed by a week word counts a week of seven days each, so `2weeks` is the same as `14days`.
#[verifier::rlimit(40)]
pub proof fn law_counted_weeks(n: nat)
    requires
        n >= 1,
    ensures
        n * 7 <= u32::MAX ==> parse_due(decimal(n) + "週間"@) == Some(DueSpec::Days((n * 7) as u32)),
        n * 7 <= u32::MAX ==> parse_due(decimal(n) + "週"@) == Some(DueSpec::Days((n * 7) as u32)),
        n * 7 <= u32::MAX ==> parse_due(decimal(n) + "week"@) == Some(DueSpec::Days((n * 7) as u32)),
        n * 7 <= u32::MAX ==> parse_due(decimal(n) + "weeks"@) == Some(DueSpec::Days((n * 7) as u32)),
{
    lemma_due_words();
    lemma_day_word(n, "週間"@, 7);
    lemma_day_word(n, "週"@, 7);
    lemma_day_word(n, "week"@, 7);
    lemma_day_word(n, "weeks"@, 7);
}

/// A count followed by a month word counts a month of thirty days each.
#[verifier::rlimit(40)]
pub proof fn law_counted_months(n: nat)
    requires
        n >= 1,
    ensures
        n * 30 <= u32::MAX ==> parse_due(decimal(n) + "か月"@) == Some(DueSpec::Days((n * 30) as u32)),
        n * 30 <= u32::MAX ==> parse_due(decimal(n) + "ヶ月"@) == Some(DueSpec::Days((n * 30) as u32)),
        n * 30 <= u32::MAX ==> parse_due(decimal(n) + "ケ月"@) == Some(DueSpec::Days((n * 30) as u32)),
        n * 30 <= u32::MAX ==> parse_due(decimal(n) + "カ月"@) == Some(DueSpec::Days((n * 30) as u32)),
        n * 30 <= u32::MAX ==> parse_due(decimal(n) + "月"@) == Some(DueSpec::Days((n * 30) as u32)),
        n * 30 <= u32::MAX ==> parse_due(decimal(n) + "month"@) == Some(DueSpec::Days((n * 30) as u32)),
        n * 30 <= u32::MAX ==> parse_due(decimal(n) + "months"@) == Some(DueSpec::Days((n * 30) as u32)),
{
    lemma_due_words();
    lemma_day_word(n, "か月"@, 30);
    lemma_day_word(n, "ヶ月"@, 30);
    lemma_day_word(n, "ケ月"@, 30);
    lemma_day_word(n, "カ月"@, 30);
    lemma_day_word(n, "月"@, 30);
    lemma_day_word(n, "month"@, 30);
    lemma_day_word(n, "months"@, 30);
}

/// A count followed by a period word counts a period of ninety days each.
#[verifier::rlimit(40)]
pub proof fn law_counted_periods(n: nat)
    requires
        n >= 1,
    ensures
        n * 90 <= u32::MAX ==> parse_due(decimal(n) + "期"@) == Some(DueSpec::Days((n * 90) as u32)),
        n * 90 <= u32::MAX ==> parse_due(decimal(n) + "q"@) == Some(DueSpec::Days((n * 90) as u32)),
        n * 90 <= u32::MAX ==> parse_due(decimal(n) + "period"@) == Some(DueSpec::Days((n * 90) as u32)),
{
    lemma_due_words();
    lemma_day_word(n, "期"@, 90);
    lemma_day_word(n, "q"@, 90);
    lemma_day_word(n, "period"@, 90);
}

/// A count followed by a year word counts a year of 365 days each.
#[verifier::rlimit(40)]
pub proof fn law_counted_years(n: nat)
    requires
        n >= 1,
    ensures
        n * 365 <= u32::MAX ==> parse_due(decimal(n) + "年"@) == Some(DueSpec::Days((n * 365) as u32)),
        n * 365 <= u32::MAX ==> parse_due(decimal(n) + "year"@) == Some(DueSpec::Days((n * 365) as u32)),
        n * 365 <= u32::MAX ==> parse_due(decimal(n) + "years"@) == Some(DueSpec::Days((n * 365) as u32)),
        n * 365 <= u32::MAX ==> parse_due(decimal(n) + "年度"@) == Some(DueSpec::Days((n * 365) as u32)),
        n * 365 <= u32::MAX ==> parse_due(decimal(n) + "fiscalyear"@) == Some(DueSpec::Days((n * 365) as u32)),
{
    lemma_due_words();
    lemma_day_word(n, "年"@, 365);
    lemma_day_word(n, "year"@, 365);
    lemma_day_word(n, "years"@, 365);
    lemma_day_word(n, "年度"@, 365);
    lemma_day_word(n, "fiscalyear"@, 365);
}

/// A count followed by a minute word counts one minute each.
#[verifier::rlimit(40)]
pub proof fn law_counted_minutes(n: nat)
    requires
        n >= 1,
    ensures
        n * 1 <= u32::MAX ==> parse_due(decimal(n) + "分"@) == Some(DueSpec::Minutes((n * 1) as u32)),
        n * 1 <= u32::MAX ==> parse_due(decimal(n) + "minute"@) == Some(DueSpec::Minutes((n * 1) as u32)),
        n * 1 <= u32::MAX ==> parse_due(decimal(n) + "minutes"@) == Some(DueSpec::Minutes((n * 1) as u32)),
        n * 1 <= u32::MAX ==> parse_due(decimal(n) + "min"@) == Some(DueSpec::Minutes((n * 1) as u32)),
{
    lemma_due_words();
    lemma_minute_word(n, "分"@, 1);
    lemma_minute_word(n, "minute"@, 1);
    lemma_minute_word(n, "minutes"@, 1);
    lemma_minute_word(n, "min"@, 1);
}

/// A count followed by a hour word counts an hour of sixty minutes each.
#[verifier::rlimit(40)]
pub proof fn law_counted_hours(n: nat)
    requires
        n >= 1,
    ensures
        n * 60 <= u32::MAX ==> parse_due(decimal(n) + "時間"@) == Some(DueSpec::Minutes((n * 60) as u32)),
        n * 60 <= u32::MAX ==> parse_due(decimal(n) + "時"@) == Some(DueSpec::Minutes((n * 60) as u32)),
        n * 60 <= u32::MAX ==> parse_due(decimal(n) + "hour"@) == Some(DueSpec::Minutes((n * 60) as u32)),
        n * 60 <= u32::MAX ==> parse_due(decimal(n) + "hours"@) == Some(DueSpec::Minutes((n * 60) as u32)),
        n * 60 <= u32::MAX ==> parse_due(decimal(n) + "h"@) == Some(DueSpec::Minutes((n * 60) as u32)),
{
    lemma_due_words();
    lemma_minute_word(n, "時間"@, 60);
    lemma_minute_word(n, "時"@, 60);
    lemma_minute_word(n, "hour"@, 60);
    lemma_minute_word(n, "hours"@, 60);
    lemma_minute_word(n, "h"@, 60);
}


/// The horizon a word after `@` stands for, as [`DueKeyword::parse`] reads it.
pub open spec fn keyword_of(word: Seq<char>) -> Option<DueKeyword> {
    match parse_due(word) {
        Some(spec) => Some(spec_keyword(spec)),
        None => None,
    }
}

/// Each named horizon means the same as a count, in either language: today
/// is one day, tomorrow two, the week seven, the month thirty, the quarter
/// ninety, the year and the fiscal year 365 days; overdue is its own kind.
pub proof fn law_named_horizons_are_counts(lang: Lang)
    ensures
        keyword_of(due_spelled(DueSpec::Named(DueName::Today), lang)) == keyword_of(decimal(1) + "days"@),
        keyword_of(due_spelled(DueSpec::Named(DueName::Tomorrow), lang)) == keyword_of(decimal(2) + "days"@),
        keyword_of(due_spelled(DueSpec::Named(DueName::Week), lang)) == keyword_of(decimal(7) + "days"@),
        keyword_of(due_spelled(DueSpec::Named(DueName::Month), lang)) == keyword_of(decimal(30) + "days"@),
        keyword_of(due_spelled(DueSpec::Named(DueName::Quarter), lang)) == keyword_of(decimal(90) + "days"@),
        keyword_of(due_spelled(DueSpec::Named(DueName::Year), lang)) == keyword_of(decimal(365) + "days"@),
        keyword_of(due_spelled(DueSpec::Named(DueName::FiscalYear), lang)) == keyword_of(decimal(365) + "days"@),
        keyword_of(due_spelled(DueSpec::Named(DueName::Overdue), lang)) == Some(DueKeyword::Overdue),
{
    assert(keyword_of(due_spelled(DueSpec::Named(DueName::Today), lang)) == keyword_of(decimal(1) + "days"@)) by {
        lemma_named_round_trip(DueName::Today);
        law_counted_days(1);
    }
    assert(keyword_of(due_spelled(DueSpec::Named(DueName::Tomorrow), lang)) == keyword_of(decimal(2) + "days"@)) by {
        lemma_named_round_trip(DueName::Tomorrow);
        law_counted_days(2);
    }
    assert(keyword_of(due_spelled(DueSpec::Named(DueName::Week), lang)) == keyword_of(decimal(7) + "days"@)) by {
        lemma_named_round_trip(DueName::Week);
        law_counted_days(7);
    }
    assert(keyword_of(due_spelled(DueSpec::Named(DueName::Month), lang)) == keyword_of(decimal(30) + "days"@)) by {
        lemma_named_round_trip(DueName::Month);
        law_counted_days(30);
    }
    assert(keyword_of(due_spelled(DueSpec::Named(DueName::Quarter), lang)) == keyword_of(decimal(90) + "days"@)) by {
        lemma_named_round_trip(DueName::Quarter);
        law_counted_days(90);
    }
    assert(keyword_of(due_spelled(DueSpec::Named(DueName::Year), lang)) == keyword_of(decimal(365) + "days"@)) by {
        lemma_named_round_trip(DueName::Year);
        law_counted_days(365);
    }
    assert(keyword_of(due_spelled(DueSpec::Named(DueName::FiscalYear), lang)) == keyword_of(decimal(365) + "days"@)) by {
        lemma_named_round_trip(DueName::FiscalYear);
        law_counted_days(365);
    }
    lemma_named_round_trip(DueName::Overdue);
}

} // verus!
