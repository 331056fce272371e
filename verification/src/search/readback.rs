//! What the search box shows for a reference reads back as that reference.
//!
//! The lemmas here follow a rendered token through the lexer: quoting keeps a
//! name in one part, a dot written between two names splits them, and a kind
//! prefix is split off at its colon.

use vstd::prelude::*;
use crate::search::due::{due_english, due_japanese, due_spelled, lemma_due_words, DueName, DueSpec};
use crate::search::lexer::{first_colon, is_quote, join_dots, kind_split, read_at_of, read_term_of, split_name_of, split_scan, split_step, with_kind, AtWordView, RawTermView, SplitState};
use crate::search::resolve::{dedup_refs, exact_refs, id_from, keyword_refs, list_hits, list_ids, name_hits, project_hits, project_ids, project_named, qualified_hits, ref_kind, render_body, rendered, resolved, user_hits, user_ids, ListEntry, ProjectEntry, ReferenceView, UserEntry};
use crate::search::resolve::lemma_id_from;
use crate::search::normalize::folded;
use crate::search::due::{law_due_spec_round_trip, parse_due};
use crate::search::vocabulary::{law_kind_spellings_round_trip, law_status_spellings_round_trip, parse_kind, parse_status};
use crate::search::normalize::{escaped, forces_quotes, needs_quotes, quoted_name, spec_syntax_char};
use crate::search::vocabulary::{kind_spelled, lemma_kind_words, lemma_status_words, parse_field, status_spelled, Lang, RefKind, StatusKey};
use crate::text::{decimal, is_ascii_digit, lemma_decimal_digits};

verus! {

/// A char that the name splitter and the kind splitter read as itself.
pub open spec fn plain_char(c: char) -> bool {
    let s = spec_syntax_char(c);
    s != '"' && s != '.' && s != '*' && s != ':'
}

/// Every char of `s` is plain.
pub open spec fn plain_word(s: Seq<char>) -> bool {
    forall|i: int| 0 <= i < s.len() ==> plain_char(#[trigger] s[i])
}

/// The only quote `s` holds is the ASCII one, which quoting escapes.
pub open spec fn plain_quotes(s: Seq<char>) -> bool {
    forall|i: int| 0 <= i < s.len() && is_quote(#[trigger] s[i]) ==> s[i] == '"'
}

/// Plain chars after an unquoted state only extend the current part.
pub proof fn lemma_scan_plain(a: Seq<char>, s: Seq<char>)
    requires
        !split_scan(a).quoted,
        !split_scan(a).escaping,
        plain_word(s),
    ensures
        split_scan(a + s) == (SplitState { current: split_scan(a).current + s, ..split_scan(a) }),
    decreases s.len(),
{
    if s.len() == 0 {
        assert(a + s =~= a);
        assert(split_scan(a).current + s =~= split_scan(a).current);
    } else {
        assert(plain_char(s[s.len() - 1]));
        lemma_scan_plain(a, s.drop_last());
        assert((a + s).drop_last() =~= a + s.drop_last());
        assert((a + s).last() == s.last());
        assert(split_scan(a).current + s.drop_last() + seq![s.last()] =~= split_scan(a).current + s);
        assert(split_scan(a + s) =~= (SplitState { current: split_scan(a).current + s, ..split_scan(a) }));
    }
}

/// Inside quotes, an escaped name is read back as the name itself.
pub proof fn lemma_scan_escaped(a: Seq<char>, n: Seq<char>)
    requires
        split_scan(a).quoted,
        !split_scan(a).escaping,
        plain_quotes(n),
    ensures
        split_scan(a + escaped(n)) == (SplitState { current: split_scan(a).current + n, ..split_scan(a) }),
    decreases n.len(),
{
    if n.len() == 0 {
        assert(a + escaped(n) =~= a);
        assert(split_scan(a).current + n =~= split_scan(a).current);
    } else {
        let m = n.drop_last();
        let c = n.last();
        assert(plain_quotes(m)) by {
            assert forall|i: int| 0 <= i < m.len() && is_quote(#[trigger] m[i]) implies m[i] == '"' by {
                assert(m[i] == n[i]);
            }
        }
        assert(is_quote(c) ==> c == '"') by {
            assert(n[n.len() - 1] == c);
        }
        lemma_scan_escaped(a, m);
        let b = a + escaped(m);
        let st = split_scan(b);
        if c == '\\' || c == '"' {
            assert(a + escaped(n) =~= b + seq!['\\', c]);
            assert((b + seq!['\\', c]).drop_last() =~= b + seq!['\\']);
            assert((b + seq!['\\']).drop_last() =~= b);
            assert(split_scan(b + seq!['\\']) == split_step(st, '\\'));
        } else {
            assert(a + escaped(n) =~= b + seq![c]);
            assert((b + seq![c]).drop_last() =~= b);
        }
        assert(split_scan(a).current + m + seq![c] =~= split_scan(a).current + n);
        assert(split_scan(a + escaped(n)) =~= (SplitState {
            current: split_scan(a).current + n,
            ..split_scan(a)
        }));
    }
}

/// A name written as [`quoted_name`] is read back whole into the current part.
pub proof fn lemma_scan_quoted_name(a: Seq<char>, n: Seq<char>)
    requires
        !split_scan(a).quoted,
        !split_scan(a).escaping,
        plain_quotes(n),
    ensures
        split_scan(a + quoted_name(n)) == (SplitState {
            current: split_scan(a).current + n,
            any_quoted: split_scan(a).any_quoted || needs_quotes(n),
            ..split_scan(a)
        }),
{
    if needs_quotes(n) {
        let a1 = a + seq!['"'];
        assert(a1.drop_last() =~= a);
        assert(split_scan(a1) == split_step(split_scan(a), '"'));
        lemma_scan_escaped(a1, n);
        let b = a1 + escaped(n);
        assert(a + quoted_name(n) =~= b + seq!['"']);
        assert((b + seq!['"']).drop_last() =~= b);
        assert(split_scan(a + quoted_name(n)) =~= (SplitState {
            current: split_scan(a).current + n,
            any_quoted: split_scan(a).any_quoted || needs_quotes(n),
            ..split_scan(a)
        }));
    } else {
        assert(plain_word(n)) by {
            assert forall|i: int| 0 <= i < n.len() implies plain_char(#[trigger] n[i]) by {
                assert(!forces_quotes(n[i]));
            }
        }
        lemma_scan_plain(a, n);
        assert(split_scan(a + quoted_name(n)) =~= (SplitState {
            current: split_scan(a).current + n,
            any_quoted: split_scan(a).any_quoted || needs_quotes(n),
            ..split_scan(a)
        }));
    }
}

/// Where the first colon of `t` at or after `i` is.
pub proof fn lemma_first_colon(t: Seq<char>, i: int)
    requires
        0 <= i <= t.len(),
    ensures
        i <= first_colon(t, i) <= t.len(),
        forall|k: int| i <= k < first_colon(t, i) ==> spec_syntax_char(#[trigger] t[k]) != ':',
        first_colon(t, i) < t.len() ==> spec_syntax_char(t[first_colon(t, i)]) == ':',
    decreases t.len() - i,
{
    if i < t.len() && spec_syntax_char(t[i]) != ':' {
        lemma_first_colon(t, i + 1);
    }
}

/// No kind is split off a text whose first quote comes before any colon.
pub proof fn lemma_no_kind_split(t: Seq<char>, q: int)
    requires
        0 <= q < t.len(),
        t[q] == '"',
        forall|k: int| 0 <= k < q ==> spec_syntax_char(#[trigger] t[k]) != ':',
    ensures
        kind_split(t) is None,
{
    lemma_first_colon(t, 0);
    let c = first_colon(t, 0);
    if c < t.len() && t[0] != '"' {
        assert(c > q);
        assert(t.take(c)[q] == '"');
    }
}

/// No kind is split off a text without colons.
pub proof fn lemma_no_kind_split_plain(t: Seq<char>)
    requires
        plain_word(t),
    ensures
        kind_split(t) is None,
{
    lemma_first_colon(t, 0);
    if first_colon(t, 0) < t.len() {
        assert(plain_char(t[first_colon(t, 0)]));
    }
}

/// No kind is split off a text without colons.
pub proof fn lemma_no_kind_split_colonless(t: Seq<char>)
    requires
        forall|k: int| 0 <= k < t.len() ==> spec_syntax_char(#[trigger] t[k]) != ':',
    ensures
        kind_split(t) is None,
{
    lemma_first_colon(t, 0);
}

/// The kind is split off `k:rest` when `k` is plain and does not start with a quote.
pub proof fn lemma_kind_split_prefix(k: Seq<char>, rest: Seq<char>)
    requires
        plain_word(k),
        k.len() > 0,
    ensures
        kind_split(k + seq![':'] + rest) == Some((k, rest)),
{
    let t = k + seq![':'] + rest;
    lemma_first_colon(t, 0);
    let c = first_colon(t, 0);
    assert(t[k.len() as int] == ':');
    if c < k.len() {
        assert(t[c] == k[c]);
        assert(plain_char(k[c]));
    }
    assert(c == k.len());
    assert(t.take(c) =~= k);
    assert(t.skip(c + 1) =~= rest);
    assert(t[0] == k[0]);
    assert(plain_char(k[0]));
    if k.contains('"') {
        let j = choose|j: int| 0 <= j < k.len() && k[j] == '"';
        assert(plain_char(k[j]));
    }
}

/// Every char of `s` from `i` on is plain.
pub open spec fn plain_from(s: Seq<char>, i: int) -> bool
    decreases s.len() - i,
{
    if i < 0 || i >= s.len() {
        true
    } else {
        plain_char(s[i]) && plain_from(s, i + 1)
    }
}

pub proof fn lemma_plain_from(s: Seq<char>, i: int)
    requires
        0 <= i,
        plain_from(s, i),
    ensures
        forall|k: int| i <= k < s.len() ==> plain_char(#[trigger] s[k]),
    decreases s.len() - i,
{
    if i < s.len() {
        lemma_plain_from(s, i + 1);
    }
}

/// A spelled keyword: non-empty, plain, and not starting with `{`.
pub open spec fn keyword_word(s: Seq<char>) -> bool {
    s.len() > 0 && s[0] != '{' && plain_word(s)
}

proof fn lemma_keyword_literal(s: Seq<char>)
    requires
        s.len() > 0,
        s[0] != '{',
        plain_from(s, 0),
    ensures
        keyword_word(s),
{
    lemma_plain_from(s, 0);
}

proof fn lemma_plain_concat(a: Seq<char>, b: Seq<char>)
    requires
        plain_word(a),
        plain_word(b),
    ensures
        plain_word(a + b),
{
    assert forall|i: int| 0 <= i < (a + b).len() implies plain_char(#[trigger] (a + b)[i]) by {
        if i < a.len() {
            assert((a + b)[i] == a[i]);
        } else {
            assert((a + b)[i] == b[i - a.len()]);
        }
    }
}

/// The kind spellings are keywords and name no text field.
pub proof fn lemma_kind_spellings_plain(k: RefKind, lang: Lang)
    ensures
        keyword_word(kind_spelled(k, lang)),
        parse_field(kind_spelled(k, lang)) is None,
{
    lemma_kind_words();
    reveal_strlit("task");
    reveal_strlit("note");
    reveal_strlit("subtask");
    reveal_strlit("subtasknote");
    assert("task"@ =~= seq!['t', 'a', 's', 'k']);
    assert("note"@ =~= seq!['n', 'o', 't', 'e']);
    assert("subtask"@ =~= seq!['s', 'u', 'b', 't', 'a', 's', 'k']);
    assert("subtasknote"@ =~= seq!['s', 'u', 'b', 't', 'a', 's', 'k', 'n', 'o', 't', 'e']);
    reveal_with_fuel(plain_from, 8);
    let w = kind_spelled(k, lang);
    assert(plain_from(w, 0));
    lemma_keyword_literal(w);
    assert(w != "task"@ && w != "note"@ && w != "subtask"@ && w != "subtasknote"@) by {
        if w.len() == 4 {
            assert(w[0] != 't' || w[1] != 'a');
            assert(w[0] != 'n' || w[1] != 'o');
        }
    }
}

/// The state spellings are keywords.
pub proof fn lemma_status_spellings_plain(k: StatusKey, lang: Lang)
    ensures
        keyword_word(status_spelled(k, lang)),
{
    lemma_status_words();
    reveal_with_fuel(plain_from, 12);
    let w = status_spelled(k, lang);
    assert(plain_from(w, 0));
    lemma_keyword_literal(w);
}

proof fn lemma_named_spellings_plain(n: DueName)
    ensures
        keyword_word(due_english(n)),
        keyword_word(due_japanese(n)),
{
    lemma_due_words();
    reveal_with_fuel(plain_from, 12);
    assert(plain_from(due_english(n), 0));
    assert(plain_from(due_japanese(n), 0));
    lemma_keyword_literal(due_english(n));
    lemma_keyword_literal(due_japanese(n));
}

proof fn lemma_counted_plain(n: nat, unit: Seq<char>)
    requires
        plain_word(unit),
    ensures
        keyword_word(decimal(n) + unit),
{
    lemma_decimal_digits(n);
    assert(plain_word(decimal(n))) by {
        assert forall|i: int| 0 <= i < decimal(n).len() implies plain_char(
            #[trigger] decimal(n)[i],
        ) by {
            assert(is_ascii_digit(decimal(n)[i]));
        }
    }
    lemma_plain_concat(decimal(n), unit);
    assert((decimal(n) + unit)[0] == decimal(n)[0]);
    assert(is_ascii_digit(decimal(n)[0]));
}

/// The due-date spellings are keywords.
pub proof fn lemma_due_spellings_plain(spec: DueSpec, lang: Lang)
    ensures
        keyword_word(due_spelled(spec, lang)),
{
    lemma_due_words();
    reveal_with_fuel(plain_from, 6);
    match spec {
        DueSpec::Named(n) => lemma_named_spellings_plain(n),
        DueSpec::Days(d) => {
            assert(plain_from("days"@, 0));
            assert(plain_from("日"@, 0));
            lemma_plain_from("days"@, 0);
            lemma_plain_from("日"@, 0);
            lemma_counted_plain(d as nat, "days"@);
            lemma_counted_plain(d as nat, "日"@);
        },
        DueSpec::Minutes(m) => {
            assert(plain_from("hours"@, 0));
            assert(plain_from("時間"@, 0));
            assert(plain_from("min"@, 0));
            assert(plain_from("分"@, 0));
            lemma_plain_from("hours"@, 0);
            lemma_plain_from("時間"@, 0);
            lemma_plain_from("min"@, 0);
            lemma_plain_from("分"@, 0);
            lemma_counted_plain((m / 60) as nat, "hours"@);
            lemma_counted_plain((m / 60) as nat, "時間"@);
            lemma_counted_plain(m as nat, "min"@);
            lemma_counted_plain(m as nat, "分"@);
        },
    }
}

proof fn lemma_has_push(s: Seq<ReferenceView>, x: ReferenceView, y: ReferenceView)
    requires
        s.contains(x) || x == y,
    ensures
        s.push(y).contains(x),
{
    if x == y {
        assert(s.push(y)[s.len() as int] == y);
    } else {
        let i = choose|i: int| 0 <= i < s.len() && s[i] == x;
        assert(s.push(y)[i] == x);
    }
}

proof fn lemma_has_add(a: Seq<ReferenceView>, b: Seq<ReferenceView>, x: ReferenceView)
    requires
        a.contains(x) || b.contains(x),
    ensures
        (a + b).contains(x),
{
    if a.contains(x) {
        let i = choose|i: int| 0 <= i < a.len() && a[i] == x;
        assert((a + b)[i] == x);
    } else {
        let i = choose|i: int| 0 <= i < b.len() && b[i] == x;
        assert((a + b)[a.len() + i] == x);
    }
}

proof fn lemma_dedup_has(s: Seq<ReferenceView>, x: ReferenceView)
    requires
        s.contains(x),
    ensures
        dedup_refs(s).contains(x),
    decreases s.len(),
{
    let rest = s.drop_last();
    if s.last() == x {
        if !dedup_refs(rest).contains(x) {
            lemma_has_push(dedup_refs(rest), x, x);
        }
    } else {
        let i = choose|i: int| 0 <= i < s.len() && s[i] == x;
        assert(rest[i] == x);
        lemma_dedup_has(rest, x);
        if !dedup_refs(rest).contains(s.last()) {
            lemma_has_push(dedup_refs(rest), x, s.last());
        }
    }
}

proof fn lemma_project_hits_has(ps: Seq<ProjectEntry>, glob: bool, pat: Seq<char>, i: int)
    requires
        0 <= i < ps.len(),
        name_hits(glob, pat, folded(ps[i].name@)),
    ensures
        project_hits(ps, glob, pat).contains(ReferenceView::Project(ps[i].id@)),
    decreases ps.len(),
{
    let rest = project_hits(ps.drop_last(), glob, pat);
    let x = ReferenceView::Project(ps[i].id@);
    if i < ps.len() - 1 {
        assert(ps.drop_last()[i] == ps[i]);
        lemma_project_hits_has(ps.drop_last(), glob, pat, i);
        if name_hits(glob, pat, folded(ps.last().name@)) {
            lemma_has_push(rest, x, ReferenceView::Project(ps.last().id@));
        }
    } else {
        lemma_has_push(rest, x, x);
    }
}

proof fn lemma_user_hits_has(us: Seq<UserEntry>, glob: bool, pat: Seq<char>, i: int)
    requires
        0 <= i < us.len(),
        name_hits(glob, pat, folded(us[i].display_name@)) || name_hits(
            glob,
            pat,
            folded(us[i].handle@),
        ),
    ensures
        user_hits(us, glob, pat).contains(ReferenceView::User(us[i].id@)),
    decreases us.len(),
{
    let rest = user_hits(us.drop_last(), glob, pat);
    let x = ReferenceView::User(us[i].id@);
    if i < us.len() - 1 {
        assert(us.drop_last()[i] == us[i]);
        lemma_user_hits_has(us.drop_last(), glob, pat, i);
        if name_hits(glob, pat, folded(us.last().display_name@)) || name_hits(
            glob,
            pat,
            folded(us.last().handle@),
        ) {
            lemma_has_push(rest, x, ReferenceView::User(us.last().id@));
        }
    } else {
        lemma_has_push(rest, x, x);
    }
}

proof fn lemma_qualified_hits_has(
    ls: Seq<ListEntry>,
    ps: Seq<ProjectEntry>,
    glob: bool,
    ppat: Seq<char>,
    lpat: Seq<char>,
    i: int,
)
    requires
        0 <= i < ls.len(),
        name_hits(glob, lpat, folded(ls[i].name@)),
        project_named(ps, ls[i].project_id@, glob, ppat),
    ensures
        qualified_hits(ls, ps, glob, ppat, lpat).contains(ReferenceView::List(ls[i].id@)),
    decreases ls.len(),
{
    let rest = qualified_hits(ls.drop_last(), ps, glob, ppat, lpat);
    let x = ReferenceView::List(ls[i].id@);
    if i < ls.len() - 1 {
        assert(ls.drop_last()[i] == ls[i]);
        lemma_qualified_hits_has(ls.drop_last(), ps, glob, ppat, lpat, i);
        if name_hits(glob, lpat, folded(ls.last().name@)) && project_named(
            ps,
            ls.last().project_id@,
            glob,
            ppat,
        ) {
            lemma_has_push(rest, x, ReferenceView::List(ls.last().id@));
        }
    } else {
        lemma_has_push(rest, x, x);
    }
}

/// What a rendered token needs for the law below: fold leaves the keyword
/// spellings it writes alone, counts are at least one, names hold no quote but
/// the ASCII one, and a list's name is not empty.
pub open spec fn reads_back_premise(
    ps: Seq<ProjectEntry>,
    ls: Seq<ListEntry>,
    us: Seq<UserEntry>,
    r: ReferenceView,
    lang: Lang,
    explicit: bool,
) -> bool {
    &&& explicit ==> folded(kind_spelled(ref_kind(r), lang)) == kind_spelled(ref_kind(r), lang)
    &&& match r {
        ReferenceView::Due(spec) => {
            &&& spec matches DueSpec::Days(d) ==> d >= 1
            &&& spec matches DueSpec::Minutes(m) ==> m >= 1
            &&& folded(due_spelled(spec, lang)) == due_spelled(spec, lang)
        },
        ReferenceView::Status(k) => folded(status_spelled(k, lang)) == status_spelled(k, lang),
        ReferenceView::Project(id) => match id_from(project_ids(ps), id, 0) {
            Some(i) => plain_quotes(ps[i].name@),
            None => true,
        },
        ReferenceView::List(id) => match id_from(list_ids(ls), id, 0) {
            Some(i) => {
                &&& ls[i].name@.len() > 0
                &&& plain_quotes(ls[i].name@)
                &&& match id_from(project_ids(ps), ls[i].project_id@, 0) {
                    Some(j) => plain_quotes(ps[j].name@),
                    None => true,
                }
            },
            None => true,
        },
        ReferenceView::User(id) => match id_from(user_ids(us), id, 0) {
            Some(i) => plain_quotes(
                if us[i].display_name@.len() == 0 {
                    us[i].handle@
                } else {
                    us[i].display_name@
                },
            ),
            None => true,
        },
    }
}

proof fn lemma_single_part(n: Seq<char>)
    requires
        plain_quotes(n),
    ensures
        split_name_of(quoted_name(n)).parts == seq![n],
        split_name_of(quoted_name(n)).quoted == needs_quotes(n),
        !split_name_of(quoted_name(n)).wildcard,
        quoted_name(n).len() > 0,
        kind_split(quoted_name(n)) is None,
{
    let e = Seq::<char>::empty();
    lemma_scan_quoted_name(e, n);
    assert(e + quoted_name(n) =~= quoted_name(n));
    assert(e + n =~= n);
    if needs_quotes(n) {
        assert(quoted_name(n)[0] == '"');
        lemma_no_kind_split(quoted_name(n), 0);
    } else {
        assert(n.len() > 0);
        assert(plain_word(n)) by {
            assert forall|i: int| 0 <= i < n.len() implies plain_char(#[trigger] n[i]) by {
                assert(!forces_quotes(n[i]));
            }
        }
        lemma_no_kind_split_plain(n);
    }
}

proof fn lemma_two_parts(p: Seq<char>, l: Seq<char>)
    requires
        plain_quotes(p),
        plain_quotes(l),
        l.len() > 0,
    ensures
        split_name_of(quoted_name(p) + seq!['.'] + quoted_name(l)).parts == seq![p, l],
        !split_name_of(quoted_name(p) + seq!['.'] + quoted_name(l)).wildcard,
        kind_split(quoted_name(p) + seq!['.'] + quoted_name(l)) is None,
{
    let e = Seq::<char>::empty();
    let qp = quoted_name(p);
    let ql = quoted_name(l);
    lemma_scan_quoted_name(e, p);
    assert(e + qp =~= qp);
    assert(e + p =~= p);
    let a = qp + seq!['.'];
    assert(a.drop_last() =~= qp);
    assert(split_scan(a) == split_step(split_scan(qp), '.'));
    lemma_scan_quoted_name(a, l);
    let t = qp + seq!['.'] + ql;
    assert(a + ql =~= t);
    assert(Seq::<char>::empty() + l =~= l);
    assert(split_scan(t).done =~= seq![p]);
    assert(split_name_of(t).parts =~= seq![p, l]);
    // No kind prefix: the first quote, if any, comes before every colon.
    if needs_quotes(p) {
        assert(t[0] == '"');
        lemma_no_kind_split(t, 0);
    } else {
        assert(plain_word(p)) by {
            assert forall|i: int| 0 <= i < p.len() implies plain_char(#[trigger] p[i]) by {
                assert(!forces_quotes(p[i]));
            }
        }
        if needs_quotes(l) {
            let q: int = p.len() as int + 1;
            assert(t[q] == '"');
            assert forall|k: int| 0 <= k < q implies spec_syntax_char(#[trigger] t[k]) != ':' by {
                if k < p.len() {
                    assert(t[k] == p[k]);
                    assert(plain_char(p[k]));
                } else {
                    assert(t[k] == '.');
                }
            }
            lemma_no_kind_split(t, q);
        } else {
            assert(plain_word(l)) by {
                assert forall|i: int| 0 <= i < l.len() implies plain_char(#[trigger] l[i]) by {
                    assert(!forces_quotes(l[i]));
                }
            }
            assert forall|k: int| 0 <= k < t.len() implies spec_syntax_char(#[trigger] t[k]) != ':' by {
                if k < p.len() {
                    assert(t[k] == p[k]);
                    assert(plain_char(p[k]));
                } else if k == p.len() {
                    assert(t[k] == '.');
                } else {
                    assert(t[k] == l[k - p.len() - 1]);
                    assert(plain_char(l[k - p.len() - 1]));
                }
            }
            lemma_no_kind_split_colonless(t);
        }
    }
}

proof fn lemma_keyword_part(w: Seq<char>)
    requires
        keyword_word(w),
    ensures
        split_name_of(w).parts == seq![w],
        !split_name_of(w).quoted,
        !split_name_of(w).wildcard,
        kind_split(w) is None,
{
    let e = Seq::<char>::empty();
    lemma_scan_plain(e, w);
    assert(e + w =~= w);
    assert(Seq::<char>::empty() + w =~= w);
    lemma_no_kind_split_plain(w);
}

/// A reference renders to a token that reads back as an `@` word naming it
/// again, in either language, with or without the kind prefix. This is what
/// lets a confirmed token survive being written into the search box.
pub proof fn law_rendered_token_reads_back(
    ps: Seq<ProjectEntry>,
    ls: Seq<ListEntry>,
    us: Seq<UserEntry>,
    r: ReferenceView,
    lang: Lang,
    explicit: bool,
)
    requires
        rendered(ps, ls, us, r, lang, explicit) is Some,
        reads_back_premise(ps, ls, us, r, lang, explicit),
    ensures
        read_term_of(rendered(ps, ls, us, r, lang, explicit)->0) matches RawTermView::At(w)
            && resolved(ps, ls, us, w).contains(r),
{
    let body = render_body(ps, ls, us, r, lang)->0;
    let text = rendered(ps, ls, us, r, lang, explicit)->0;
    let kind = ref_kind(r);
    let kw = kind_spelled(kind, lang);
    // The body on its own: one word, split into the parts it was written from.
    let mut plain_body = false;
    match r {
        ReferenceView::Due(spec) => {
            lemma_due_spellings_plain(spec, lang);
            lemma_keyword_part(body);
            plain_body = true;
        },
        ReferenceView::Status(k) => {
            lemma_status_spellings_plain(k, lang);
            lemma_keyword_part(body);
            plain_body = true;
        },
        ReferenceView::Project(id) => {
            let i = id_from(project_ids(ps), id, 0)->0;
            lemma_single_part(ps[i].name@);
        },
        ReferenceView::List(id) => {
            let i = id_from(list_ids(ls), id, 0)->0;
            let j = id_from(project_ids(ps), ls[i].project_id@, 0)->0;
            lemma_two_parts(ps[j].name@, ls[i].name@);
        },
        ReferenceView::User(id) => {
            let i = id_from(user_ids(us), id, 0)->0;
            let shown = if us[i].display_name@.len() == 0 {
                us[i].handle@
            } else {
                us[i].display_name@
            };
            lemma_single_part(shown);
        },
    }
    let sw = split_name_of(body);
    assert(body.len() > 0);
    // The whole token: `@`, then the body, with the kind prefix when explicit.
    let rest = if explicit {
        kw + seq![':'] + body
    } else {
        body
    };
    assert(text.drop_first() =~= rest);
    assert(text[0] == '@');
    let w = if explicit {
        with_kind(sw, kind)
    } else {
        sw
    };
    if explicit {
        lemma_kind_spellings_plain(kind, lang);
        law_kind_spellings_round_trip(kind, lang);
        lemma_kind_split_prefix(kw, body);
        assert(parse_kind(folded(kw)) == Some(kind));
        assert(read_at_of(rest) == RawTermView::At(w));
    } else {
        assert(read_at_of(rest) == RawTermView::At(w));
    }
    assert(read_term_of(text) == RawTermView::At(w));
    assert(w.id is None);
    assert(!w.wildcard);
    // What the word names includes the reference.
    let whole = folded(join_dots(w.parts));
    match r {
        ReferenceView::Due(spec) => {
            assert(join_dots(w.parts) == body);
            law_due_spec_round_trip(spec, lang);
            assert(keyword_refs(w, whole)[0] == r);
            lemma_has_add(keyword_refs(w, whole), Seq::empty(), r);
        },
        ReferenceView::Status(k) => {
            assert(join_dots(w.parts) == body);
            law_status_spellings_round_trip(k, lang);
            let kr = keyword_refs(w, whole);
            assert(kr[kr.len() - 1] == r);
            lemma_has_add(kr, Seq::empty(), r);
        },
        ReferenceView::Project(id) => {
            let i = id_from(project_ids(ps), id, 0)->0;
            lemma_id_from(project_ids(ps), id, 0);
            assert(project_ids(ps)[i] == ps[i].id@);
            assert(join_dots(w.parts) == ps[i].name@);
            lemma_project_hits_has(ps, false, whole, i);
        },
        ReferenceView::List(id) => {
            let i = id_from(list_ids(ls), id, 0)->0;
            let j = id_from(project_ids(ps), ls[i].project_id@, 0)->0;
            lemma_id_from(list_ids(ls), id, 0);
            lemma_id_from(project_ids(ps), ls[i].project_id@, 0);
            assert(list_ids(ls)[i] == ls[i].id@);
            assert(project_ids(ps)[j] == ps[j].id@);
            assert(w.parts.skip(1) =~= seq![ls[i].name@]);
            assert(project_named(ps, ls[i].project_id@, false, folded(w.parts[0])));
            lemma_qualified_hits_has(
                ls,
                ps,
                false,
                folded(w.parts[0]),
                folded(join_dots(w.parts.skip(1))),
                i,
            );
        },
        ReferenceView::User(id) => {
            let i = id_from(user_ids(us), id, 0)->0;
            lemma_id_from(user_ids(us), id, 0);
            assert(user_ids(us)[i] == us[i].id@);
            lemma_user_hits_has(us, false, whole, i);
        },
    }
    let all = exact_refs(ps, ls, us, w);
    assert(all.contains(r)) by {
        let kr = keyword_refs(w, whole);
        let pr = if crate::search::resolve::allows_kind(w, RefKind::Project) {
            project_hits(ps, false, whole)
        } else {
            Seq::empty()
        };
        let lr = if crate::search::resolve::allows_kind(w, RefKind::List) {
            list_hits(ls, false, whole) + if w.parts.len() >= 2 {
                qualified_hits(
                    ls,
                    ps,
                    false,
                    folded(w.parts[0]),
                    folded(join_dots(w.parts.skip(1))),
                )
            } else {
                Seq::empty()
            }
        } else {
            Seq::empty()
        };
        let ur = if crate::search::resolve::allows_kind(w, RefKind::User) {
            user_hits(us, false, whole)
        } else {
            Seq::empty()
        };
        assert(all == kr + pr + lr + ur);
        match r {
            ReferenceView::List(_) => {
                let lh = list_hits(ls, false, whole);
                let qh = qualified_hits(
                    ls,
                    ps,
                    false,
                    folded(w.parts[0]),
                    folded(join_dots(w.parts.skip(1))),
                );
                lemma_has_add(lh, qh, r);
            },
            _ => {},
        }
        if kr.contains(r) || pr.contains(r) {
            lemma_has_add(kr, pr, r);
        }
        if (kr + pr).contains(r) || lr.contains(r) {
            lemma_has_add(kr + pr, lr, r);
        }
        lemma_has_add(kr + pr + lr, ur, r);
    }
    lemma_dedup_has(all, r);
}

} // verus!
