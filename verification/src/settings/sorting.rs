//! Stable sorting and de-duplication of keyed entries.
//!
//! Each entry carries its sort key; equal keys keep the order they were
//! written in, so when two entries differ only by name the first one written
//! is the one kept.

use vstd::prelude::*;
use vstd::seq_lib::lemma_seq_contains_after_push;

verus! {

/// `x` inserted into the sorted `s` after every entry whose key is not larger.
pub open spec fn insert_sorted<T>(s: Seq<(i128, T)>, x: (i128, T)) -> Seq<(i128, T)>
    decreases s.len(),
{
    if s.len() == 0 {
        seq![x]
    } else if s.last().0 <= x.0 {
        s.push(x)
    } else {
        insert_sorted(s.drop_last(), x).push(s.last())
    }
}

/// `s` stably sorted by key.
pub open spec fn sorted_by_key<T>(s: Seq<(i128, T)>) -> Seq<(i128, T)>
    decreases s.len(),
{
    if s.len() == 0 {
        s
    } else {
        insert_sorted(sorted_by_key(s.drop_last()), s.last())
    }
}

/// `s` without the entries whose key equals that of the entry kept before them.
pub open spec fn dedup_by_key<T>(s: Seq<(i128, T)>) -> Seq<(i128, T)>
    decreases s.len(),
{
    if s.len() == 0 {
        s
    } else {
        let rest = dedup_by_key(s.drop_last());
        if rest.len() > 0 && rest.last().0 == s.last().0 {
            rest
        } else {
            rest.push(s.last())
        }
    }
}

/// Keys never decrease along `s`.
pub open spec fn keys_sorted<T>(s: Seq<(i128, T)>) -> bool {
    forall|i: int, j: int| 0 <= i <= j < s.len() ==> (#[trigger] s[i]).0 <= (#[trigger] s[j]).0
}

proof fn lemma_insert_at<T>(s: Seq<(i128, T)>, x: (i128, T), j: int)
    requires
        0 <= j <= s.len(),
        forall|k: int| j <= k < s.len() ==> (#[trigger] s[k]).0 > x.0,
        j > 0 ==> s[j - 1].0 <= x.0,
    ensures
        insert_sorted(s, x) == s.take(j) + seq![x] + s.skip(j),
    decreases s.len(),
{
    if s.len() == 0 {
        assert(s.take(j) + seq![x] + s.skip(j) =~= seq![x]);
    } else if j == s.len() {
        assert(s.take(j) + seq![x] + s.skip(j) =~= s.push(x));
    } else {
        let t = s.drop_last();
        assert forall|k: int| j <= k < t.len() implies (#[trigger] t[k]).0 > x.0 by {
            assert(t[k] == s[k]);
        }
        lemma_insert_at(t, x, j);
        assert(t.take(j) + seq![x] + t.skip(j) + seq![s.last()] =~= s.take(j) + seq![x] + s.skip(
            j,
        ));
    }
}

pub proof fn lemma_insert_sorted_keeps_order<T>(s: Seq<(i128, T)>, x: (i128, T))
    requires
        keys_sorted(s),
    ensures
        keys_sorted(insert_sorted(s, x)),
        insert_sorted(s, x).len() == s.len() + 1,
    decreases s.len(),
{
    if s.len() > 0 && s.last().0 > x.0 {
        let t = s.drop_last();
        assert(keys_sorted(t)) by {
            assert forall|i: int, j: int| 0 <= i <= j < t.len() implies (#[trigger] t[i]).0 <= (
            #[trigger] t[j]).0 by {
                assert(t[i] == s[i] && t[j] == s[j]);
            }
        }
        lemma_insert_sorted_keeps_order(t, x);
        let u = insert_sorted(t, x);
        lemma_insert_members(t, x);
        assert forall|i: int, j: int| 0 <= i <= j < u.push(s.last()).len() implies (
        #[trigger] u.push(s.last())[i]).0 <= (#[trigger] u.push(s.last())[j]).0 by {
            if j == u.len() {
                if i < u.len() {
                    let a = u[i];
                    if a == x {
                    } else {
                        let k = choose|k: int| 0 <= k < t.len() && t[k] == a;
                        assert(s[k] == t[k]);
                        assert(s[k].0 <= s[s.len() - 1].0);
                    }
                }
            }
        }
    }
}

proof fn lemma_insert_members<T>(s: Seq<(i128, T)>, x: (i128, T))
    ensures
        forall|i: int|
            0 <= i < insert_sorted(s, x).len() ==> #[trigger] insert_sorted(s, x)[i] == x || exists|
                k: int,
            |
                0 <= k < s.len() && s[k] == insert_sorted(s, x)[i],
    decreases s.len(),
{
    if s.len() > 0 && s.last().0 > x.0 {
        let t = s.drop_last();
        lemma_insert_members(t, x);
        let u = insert_sorted(t, x);
        assert forall|i: int| 0 <= i < u.push(s.last()).len() implies #[trigger] u.push(
            s.last(),
        )[i] == x || exists|k: int| 0 <= k < s.len() && s[k] == u.push(s.last())[i] by {
            if i < u.len() {
                if u[i] != x {
                    let k = choose|k: int| 0 <= k < t.len() && t[k] == u[i];
                    assert(s[k] == t[k]);
                }
            } else {
                assert(s[s.len() - 1] == u.push(s.last())[i]);
            }
        }
    } else if s.len() > 0 {
        assert forall|i: int| 0 <= i < s.push(x).len() implies #[trigger] s.push(x)[i] == x || exists|
            k: int,
        | 0 <= k < s.len() && s[k] == s.push(x)[i] by {
            if i < s.len() {
                assert(s[i] == s.push(x)[i]);
            }
        }
    }
}

/// Sorting keeps keys in order and loses nothing.
pub proof fn lemma_sorted_by_key<T>(s: Seq<(i128, T)>)
    ensures
        keys_sorted(sorted_by_key(s)),
        sorted_by_key(s).len() == s.len(),
    decreases s.len(),
{
    if s.len() > 0 {
        lemma_sorted_by_key(s.drop_last());
        lemma_insert_sorted_keeps_order(sorted_by_key(s.drop_last()), s.last());
    }
}

/// `v` stably sorted by key.
pub fn sort_by_key<T>(v: Vec<(i128, T)>) -> (r: Vec<(i128, T)>)
    ensures
        r@ == sorted_by_key(v@),
{
    let ghost all = v@;
    let mut rest = v;
    let mut out: Vec<(i128, T)> = Vec::new();
    let mut i: usize = 0;
    let n = rest.len();
    proof {
        assert(all.skip(0) =~= all);
        lemma_sorted_by_key(all.take(0));
        assert(all.take(0) =~= Seq::<(i128, T)>::empty());
    }
    while rest.len() > 0
        invariant
            n == all.len(),
            i + rest@.len() == n,
            rest@ == all.skip(i as int),
            out@ == sorted_by_key(all.take(i as int)),
            keys_sorted(out@),
        decreases rest@.len(),
    {
        let x = rest.remove(0);
        proof {
            assert(all.take(i + 1).drop_last() =~= all.take(i as int));
            assert(all.take(i + 1).last() == x);
            assert(rest@ =~= all.skip(i + 1));
        }
        let mut j = out.len();
        while j > 0 && out[j - 1].0 > x.0
            invariant
                j <= out@.len(),
                forall|k: int| j <= k < out@.len() ==> (#[trigger] out@[k]).0 > x.0,
            decreases j,
        {
            j = j - 1;
        }
        proof {
            lemma_insert_at(out@, x, j as int);
            lemma_insert_sorted_keeps_order(out@, x);
        }
        out.insert(j, x);
        assert(out@ =~= sorted_by_key(all.take(i + 1)));
        i = i + 1;
    }
    assert(all.take(n as int) =~= all);
    out
}

/// `v` without the entries whose key equals that of the entry kept before them.
pub fn dedup_keys<T>(v: Vec<(i128, T)>) -> (r: Vec<(i128, T)>)
    ensures
        r@ == dedup_by_key(v@),
{
    let ghost all = v@;
    let mut rest = v;
    let mut out: Vec<(i128, T)> = Vec::new();
    let mut i: usize = 0;
    let n = rest.len();
    proof {
        assert(all.skip(0) =~= all);
        assert(all.take(0) =~= Seq::<(i128, T)>::empty());
    }
    while rest.len() > 0
        invariant
            n == all.len(),
            i + rest@.len() == n,
            rest@ == all.skip(i as int),
            out@ == dedup_by_key(all.take(i as int)),
        decreases rest@.len(),
    {
        let x = rest.remove(0);
        proof {
            assert(all.take(i + 1).drop_last() =~= all.take(i as int));
            assert(all.take(i + 1).last() == x);
            assert(rest@ =~= all.skip(i + 1));
        }
        let repeat = out.len() > 0 && out[out.len() - 1].0 == x.0;
        if !repeat {
            out.push(x);
        }
        i = i + 1;
    }
    assert(all.take(n as int) =~= all);
    out
}


/// Each entry of `s` paired with its key.
pub open spec fn keyed_by<T>(s: Seq<T>, key: spec_fn(T) -> i128) -> Seq<(i128, T)> {
    s.map_values(|x: T| (key(x), x))
}

/// The entries of `s`, without their keys.
pub open spec fn unkeyed<T>(s: Seq<(i128, T)>) -> Seq<T> {
    s.map_values(|p: (i128, T)| p.1)
}

/// `s` stably sorted by `key`.
pub open spec fn sorted_on<T>(s: Seq<T>, key: spec_fn(T) -> i128) -> Seq<T> {
    unkeyed(sorted_by_key(keyed_by(s, key)))
}

/// `key` never decreases along `s`.
pub open spec fn in_key_order<T>(s: Seq<T>, key: spec_fn(T) -> i128) -> bool {
    forall|i: int, j: int| 0 <= i <= j < s.len() ==> key(#[trigger] s[i]) <= key(#[trigger] s[j])
}

/// The entries of `s` that `keep` holds of, in their order.
pub open spec fn kept<T>(s: Seq<T>, keep: spec_fn(T) -> bool) -> Seq<T>
    decreases s.len(),
{
    if s.len() == 0 {
        s
    } else {
        let rest = kept(s.drop_last(), keep);
        if keep(s.last()) {
            rest.push(s.last())
        } else {
            rest
        }
    }
}

proof fn lemma_insert_sorted_entries<T>(s: Seq<(i128, T)>, x: (i128, T), y: (i128, T))
    ensures
        insert_sorted(s, x).contains(y) <==> (s.contains(y) || y == x),
    decreases s.len(),
{
    broadcast use lemma_seq_contains_after_push;

    if s.len() == 0 {
        assert(seq![x] =~= Seq::<(i128, T)>::empty().push(x));
    } else {
        assert(s =~= s.drop_last().push(s.last()));
        if s.last().0 > x.0 {
            lemma_insert_sorted_entries(s.drop_last(), x, y);
        }
    }
}

/// Sorting neither loses nor invents an entry.
pub proof fn lemma_sorted_same_entries<T>(s: Seq<(i128, T)>, y: (i128, T))
    ensures
        sorted_by_key(s).contains(y) <==> s.contains(y),
    decreases s.len(),
{
    broadcast use lemma_seq_contains_after_push;

    if s.len() > 0 {
        lemma_sorted_same_entries(s.drop_last(), y);
        lemma_insert_sorted_entries(sorted_by_key(s.drop_last()), s.last(), y);
        assert(s =~= s.drop_last().push(s.last()));
    }
}

/// Sorting by `key` keeps every entry, adds none, and leaves `key` in order.
pub proof fn lemma_sorted_on<T>(s: Seq<T>, key: spec_fn(T) -> i128)
    ensures
        sorted_on(s, key).len() == s.len(),
        in_key_order(sorted_on(s, key), key),
        forall|x: T| #[trigger] sorted_on(s, key).contains(x) <==> s.contains(x),
{
    let k = keyed_by(s, key);
    let q = sorted_by_key(k);
    let r = sorted_on(s, key);
    lemma_sorted_by_key(k);
    assert forall|i: int| 0 <= i < q.len() implies (#[trigger] q[i]).0 == key(q[i].1) by {
        assert(q.contains(q[i]));
        lemma_sorted_same_entries(k, q[i]);
        let j = choose|j: int| 0 <= j < k.len() && k[j] == q[i];
        assert(k[j] == (key(s[j]), s[j]));
    }
    assert forall|i: int, j: int| 0 <= i <= j < r.len() implies key(#[trigger] r[i]) <= key(
        #[trigger] r[j],
    ) by {
        assert(r[i] == q[i].1 && r[j] == q[j].1);
        assert(q[i].0 <= q[j].0);
    }
    assert forall|x: T| #[trigger] r.contains(x) <==> s.contains(x) by {
        if r.contains(x) {
            let i = choose|i: int| 0 <= i < r.len() && r[i] == x;
            assert(q[i].1 == x);
            assert(q.contains(q[i]));
            lemma_sorted_same_entries(k, q[i]);
            let j = choose|j: int| 0 <= j < k.len() && k[j] == q[i];
            assert(s[j] == x);
        }
        if s.contains(x) {
            let j = choose|j: int| 0 <= j < s.len() && s[j] == x;
            assert(k[j] == (key(x), x));
            assert(k.contains((key(x), x)));
            lemma_sorted_same_entries(k, (key(x), x));
            let i = choose|i: int| 0 <= i < q.len() && q[i] == (key(x), x);
            assert(r[i] == x);
        }
    }
}

/// Keeping some entries drops no entry that `keep` holds of, adds none, and
/// keeps an order by `key`.
pub proof fn lemma_kept<T>(s: Seq<T>, keep: spec_fn(T) -> bool, key: spec_fn(T) -> i128)
    ensures
        forall|x: T| #[trigger] kept(s, keep).contains(x) <==> (s.contains(x) && keep(x)),
        in_key_order(s, key) ==> in_key_order(kept(s, keep), key),
    decreases s.len(),
{
    broadcast use lemma_seq_contains_after_push;

    if s.len() > 0 {
        let t = s.drop_last();
        lemma_kept(t, keep, key);
        assert(s =~= t.push(s.last()));
        let rest = kept(t, keep);
        if in_key_order(s, key) {
            assert(in_key_order(t, key)) by {
                assert forall|i: int, j: int| 0 <= i <= j < t.len() implies key(#[trigger] t[i])
                    <= key(#[trigger] t[j]) by {
                    assert(t[i] == s[i] && t[j] == s[j]);
                }
            }
            if keep(s.last()) {
                let u = rest.push(s.last());
                assert forall|i: int, j: int| 0 <= i <= j < u.len() implies key(#[trigger] u[i])
                    <= key(#[trigger] u[j]) by {
                    if j == rest.len() && i < rest.len() {
                        assert(rest.contains(rest[i]));
                        let m = choose|m: int| 0 <= m < t.len() && t[m] == rest[i];
                        assert(s[m] == t[m]);
                        assert(key(s[m]) <= key(s[s.len() - 1]));
                    } else if j < rest.len() {
                        assert(u[i] == rest[i] && u[j] == rest[j]);
                    }
                }
            }
        }
    }
}

} // verus!
