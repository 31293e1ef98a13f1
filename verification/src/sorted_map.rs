//! Maps keyed by strings, kept as vectors of entries in strictly ascending key order.
//!
//! A list `l` of `(key, value)` entries stands for a map; `upsert` puts an
//! entry at its place in key order, replacing the entry of an equal key.
use vstd::prelude::*;

use crate::text::{chars_of, compare_chars, lemma_seq_lt_total, lemma_seq_lt_trans, seq_lt, Order};

verus! {

/// The keys of a list of entries.
pub open spec fn keys<V>(l: Seq<(Seq<char>, V)>) -> Seq<Seq<char>> {
    l.map_values(|e: (Seq<char>, V)| e.0)
}

/// The keys of a list of entries whose keys are strings.
pub open spec fn string_keys<V>(l: Seq<(String, V)>) -> Seq<Seq<char>> {
    l.map_values(|e: (String, V)| e.0@)
}

/// The keys are in strictly ascending order.
pub open spec fn sorted_keys(ks: Seq<Seq<char>>) -> bool {
    forall|i: int, j: int| 0 <= i < j < ks.len() ==> seq_lt(ks[i], ks[j])
}

/// The first position at or after `i` whose key is not below `k`.
pub open spec fn lb_from(ks: Seq<Seq<char>>, k: Seq<char>, i: int) -> int
    decreases ks.len() - i,
{
    if i < 0 {
        0
    } else if i >= ks.len() {
        ks.len() as int
    } else if seq_lt(ks[i], k) {
        lb_from(ks, k, i + 1)
    } else {
        i
    }
}

/// The position where `k` belongs in a sorted key list.
pub open spec fn lower_bound(ks: Seq<Seq<char>>, k: Seq<char>) -> int {
    lb_from(ks, k, 0)
}

/// `l` with the entry `(k, v)` at position `i`, replacing an entry there of key `k`.
pub open spec fn upsert_at<V>(l: Seq<(Seq<char>, V)>, i: int, k: Seq<char>, v: V) -> Seq<
    (Seq<char>, V),
> {
    if 0 <= i < l.len() && l[i].0 == k {
        l.update(i, (k, v))
    } else {
        l.insert(i, (k, v))
    }
}

/// The value of key `k` if the entry at position `i` has that key, else `d`.
pub open spec fn value_at<V>(l: Seq<(Seq<char>, V)>, i: int, k: Seq<char>, d: V) -> V {
    if 0 <= i < l.len() && l[i].0 == k {
        l[i].1
    } else {
        d
    }
}

/// `l` with `k` mapped to `v`, in key order.
pub open spec fn upsert<V>(l: Seq<(Seq<char>, V)>, k: Seq<char>, v: V) -> Seq<(Seq<char>, V)> {
    upsert_at(l, lower_bound(keys(l), k), k, v)
}

/// The value of `k` in `l`, or `d` when `k` has no entry.
pub open spec fn lookup<V>(l: Seq<(Seq<char>, V)>, k: Seq<char>, d: V) -> V {
    value_at(l, lower_bound(keys(l), k), k, d)
}

/// `k` has an entry in `l`.
pub open spec fn has_key<V>(l: Seq<(Seq<char>, V)>, k: Seq<char>) -> bool {
    keys(l).contains(k)
}

pub proof fn lemma_lb_from(ks: Seq<Seq<char>>, k: Seq<char>, i: int)
    requires
        0 <= i <= ks.len(),
    ensures
        i <= lb_from(ks, k, i) <= ks.len(),
        forall|j: int| i <= j < lb_from(ks, k, i) ==> seq_lt(#[trigger] ks[j], k),
        lb_from(ks, k, i) < ks.len() ==> !seq_lt(ks[lb_from(ks, k, i)], k),
    decreases ks.len() - i,
{
    if i < ks.len() && seq_lt(ks[i], k) {
        lemma_lb_from(ks, k, i + 1);
    }
}

/// In a sorted key list, the keys before the lower bound are below `k` and
/// those from it on are not.
pub proof fn lemma_lower_bound(ks: Seq<Seq<char>>, k: Seq<char>)
    requires
        sorted_keys(ks),
    ensures
        0 <= lower_bound(ks, k) <= ks.len(),
        forall|j: int| 0 <= j < lower_bound(ks, k) ==> seq_lt(#[trigger] ks[j], k),
        forall|j: int| lower_bound(ks, k) <= j < ks.len() ==> !seq_lt(#[trigger] ks[j], k),
        forall|j: int| lower_bound(ks, k) < j < ks.len() ==> seq_lt(k, #[trigger] ks[j]),
        ks.contains(k) <==> (lower_bound(ks, k) < ks.len() && ks[lower_bound(ks, k)] == k),
{
    lemma_lb_from(ks, k, 0);
    let b = lower_bound(ks, k);
    assert forall|j: int| b <= j < ks.len() implies !seq_lt(#[trigger] ks[j], k) by {
        if j > b && seq_lt(ks[j], k) {
            lemma_seq_lt_trans(ks[b], ks[j], k);
        }
    }
    assert forall|j: int| b < j < ks.len() implies seq_lt(k, #[trigger] ks[j]) by {
        lemma_seq_lt_total(ks[b], k);
        lemma_seq_lt_total(ks[j], k);
        if ks[b] == k {
        } else {
            lemma_seq_lt_trans(k, ks[b], ks[j]);
        }
    }
    if ks.contains(k) {
        let j = choose|j: int| 0 <= j < ks.len() && ks[j] == k;
        lemma_seq_lt_total(k, k);
        if j < b {
            assert(seq_lt(ks[j], k));
        } else if j > b {
            lemma_seq_lt_total(ks[b], k);
            assert(seq_lt(k, ks[j]));
        }
    }
}

/// Upserting keeps the keys of a list strictly sorted.
pub proof fn lemma_upsert_sorted<V>(l: Seq<(Seq<char>, V)>, k: Seq<char>, v: V)
    requires
        sorted_keys(keys(l)),
    ensures
        sorted_keys(keys(upsert(l, k, v))),
        has_key(upsert(l, k, v), k),
        forall|x: Seq<char>| #[trigger] has_key(upsert(l, k, v), x) <==> (has_key(l, x) || x == k),
{
    let ks = keys(l);
    let b = lower_bound(ks, k);
    lemma_lower_bound(ks, k);
    let r = upsert(l, k, v);
    let rk = keys(r);
    if 0 <= b < l.len() && l[b].0 == k {
        assert(rk =~= ks);
    } else {
        assert(rk =~= ks.insert(b, k));
        assert forall|i: int, j: int| 0 <= i < j < rk.len() implies seq_lt(rk[i], rk[j]) by {
            if j == b {
                assert(seq_lt(ks[i], k));
            } else if i == b {
                assert(rk[j] == ks[j - 1]);
                lemma_seq_lt_total(ks[j - 1], k);
            } else if i < b && j > b {
                assert(rk[j] == ks[j - 1]);
            } else if i > b {
                assert(rk[i] == ks[i - 1] && rk[j] == ks[j - 1]);
            }
        }
    }
    assert(rk[b] == k);
    assert forall|x: Seq<char>| #[trigger] has_key(r, x) <==> (has_key(l, x) || x == k) by {
        if rk.contains(x) {
            let j = choose|j: int| 0 <= j < rk.len() && rk[j] == x;
            if x != k {
                if 0 <= b < l.len() && l[b].0 == k {
                    assert(ks[j] == x);
                } else if j < b {
                    assert(ks[j] == x);
                } else {
                    assert(ks[j - 1] == x);
                }
            }
        }
        if ks.contains(x) {
            let j = choose|j: int| 0 <= j < ks.len() && ks[j] == x;
            if 0 <= b < l.len() && l[b].0 == k {
                assert(rk[j] == x);
            } else if j < b {
                assert(rk[j] == x);
            } else {
                assert(rk[j + 1] == x);
            }
        }
    }
}

/// In a sorted list, looking up the key of an entry gives that entry's value.
pub proof fn lemma_lookup_at<V>(l: Seq<(Seq<char>, V)>, i: int, d: V)
    requires
        sorted_keys(keys(l)),
        0 <= i < l.len(),
    ensures
        lookup(l, l[i].0, d) == l[i].1,
{
    let ks = keys(l);
    let k = l[i].0;
    assert(ks[i] == k);
    lemma_lower_bound(ks, k);
    let b = lower_bound(ks, k);
    lemma_seq_lt_total(k, k);
    if b < i {
        assert(seq_lt(ks[b], ks[i]));
    } else if b > i {
        assert(seq_lt(ks[i], ks[b]));
    }
}

/// In a sorted list, a key without an entry looks up to the default.
pub proof fn lemma_lookup_missing<V>(l: Seq<(Seq<char>, V)>, x: Seq<char>, d: V)
    requires
        sorted_keys(keys(l)),
        !has_key(l, x),
    ensures
        lookup(l, x, d) == d,
{
    let ks = keys(l);
    lemma_lower_bound(ks, x);
    let b = lower_bound(ks, x);
    if 0 <= b < l.len() && l[b].0 == x {
        assert(ks[b] == x);
        assert(ks.contains(x));
    }
}

/// After an upsert, `k` looks up to the new value and every other key as before.
pub proof fn lemma_lookup_upsert<V>(l: Seq<(Seq<char>, V)>, k: Seq<char>, v: V, x: Seq<char>, d: V)
    requires
        sorted_keys(keys(l)),
    ensures
        lookup(upsert(l, k, v), x, d) == if x == k { v } else { lookup(l, x, d) },
{
    let ks = keys(l);
    let b = lower_bound(ks, k);
    lemma_lower_bound(ks, k);
    lemma_upsert_sorted(l, k, v);
    let r = upsert(l, k, v);
    let replaced = 0 <= b < l.len() && l[b].0 == k;
    // The new entry sits at `b`.
    assert(r[b] == (k, v));
    if x == k {
        lemma_lookup_at(r, b, d);
    } else if has_key(l, x) {
        let j = choose|j: int| 0 <= j < ks.len() && ks[j] == x;
        lemma_lookup_at(l, j, d);
        if replaced {
            assert(r[j] == l[j]);
            lemma_lookup_at(r, j, d);
        } else if j < b {
            assert(r[j] == l[j]);
            lemma_lookup_at(r, j, d);
        } else {
            assert(r[j + 1] == l[j]);
            lemma_lookup_at(r, j + 1, d);
        }
    } else {
        assert(!has_key(r, x));
        lemma_lookup_missing(l, x, d);
        lemma_lookup_missing(r, x, d);
    }
}

/// Two sorted key lists holding the same keys are the same list.
pub proof fn lemma_sorted_same_keys(a: Seq<Seq<char>>, b: Seq<Seq<char>>)
    requires
        sorted_keys(a),
        sorted_keys(b),
        forall|x: Seq<char>| a.contains(x) <==> b.contains(x),
    ensures
        a == b,
    decreases a.len() + b.len(),
{
    if a.len() == 0 {
        if b.len() > 0 {
            assert(b.contains(b[0]));
        }
        assert(a =~= b);
    } else if b.len() == 0 {
        assert(a.contains(a[0]));
    } else {
        let la = a.last();
        let lb = b.last();
        assert(a.contains(la));
        assert(b.contains(lb));
        let ia = choose|i: int| 0 <= i < b.len() && b[i] == la;
        let ib = choose|i: int| 0 <= i < a.len() && a[i] == lb;
        lemma_seq_lt_total(la, lb);
        lemma_seq_lt_total(la, la);
        if la != lb {
            if seq_lt(la, lb) {
                // lb is in a, before its last, so below la.
                assert(ib < a.len() - 1);
                assert(seq_lt(a[ib], la));
            } else {
                assert(ia < b.len() - 1);
                assert(seq_lt(b[ia], lb));
            }
        }
        let da = a.drop_last();
        let db = b.drop_last();
        assert forall|x: Seq<char>| da.contains(x) <==> db.contains(x) by {
            if da.contains(x) {
                let i = choose|i: int| 0 <= i < da.len() && da[i] == x;
                assert(seq_lt(a[i], la));
                assert(a.contains(x));
                let j = choose|j: int| 0 <= j < b.len() && b[j] == x;
                if j == b.len() - 1 {
                    lemma_seq_lt_total(x, x);
                }
                assert(db[j] == x);
            }
            if db.contains(x) {
                let i = choose|i: int| 0 <= i < db.len() && db[i] == x;
                assert(seq_lt(b[i], lb));
                assert(b.contains(x));
                let j = choose|j: int| 0 <= j < a.len() && a[j] == x;
                if j == a.len() - 1 {
                    lemma_seq_lt_total(x, x);
                }
                assert(da[j] == x);
            }
        }
        lemma_sorted_same_keys(da, db);
        assert(a =~= da.push(la));
        assert(b =~= db.push(lb));
    }
}

/// Two sorted lists with the same keys whose keys look up alike are the same list.
pub proof fn lemma_sorted_ext<V>(a: Seq<(Seq<char>, V)>, b: Seq<(Seq<char>, V)>, d: V)
    requires
        sorted_keys(keys(a)),
        sorted_keys(keys(b)),
        forall|x: Seq<char>| #[trigger] has_key(a, x) <==> has_key(b, x),
        forall|x: Seq<char>| #[trigger] lookup(a, x, d) == lookup(b, x, d),
    ensures
        a == b,
{
    assert forall|x: Seq<char>| keys(a).contains(x) <==> keys(b).contains(x) by {
        assert(has_key(a, x) <==> has_key(b, x));
    }
    lemma_sorted_same_keys(keys(a), keys(b));
    assert(a.len() == keys(a).len());
    assert forall|i: int| 0 <= i < a.len() implies a[i] == b[i] by {
        assert(keys(a)[i] == keys(b)[i]);
        lemma_lookup_at(a, i, d);
        lemma_lookup_at(b, i, d);
        assert(lookup(a, a[i].0, d) == lookup(b, a[i].0, d));
    }
    assert(a =~= b);
}

/// Upserts of two different keys can be made in either order.
pub proof fn lemma_upsert_commute<V>(l: Seq<(Seq<char>, V)>, k1: Seq<char>, v1: V, k2: Seq<char>, v2: V, d: V)
    requires
        sorted_keys(keys(l)),
        k1 != k2,
    ensures
        upsert(upsert(l, k1, v1), k2, v2) == upsert(upsert(l, k2, v2), k1, v1),
{
    let a1 = upsert(l, k1, v1);
    let b1 = upsert(l, k2, v2);
    lemma_upsert_sorted(l, k1, v1);
    lemma_upsert_sorted(l, k2, v2);
    lemma_upsert_sorted(a1, k2, v2);
    lemma_upsert_sorted(b1, k1, v1);
    let a = upsert(a1, k2, v2);
    let b = upsert(b1, k1, v1);
    assert forall|x: Seq<char>| #[trigger] lookup(a, x, d) == lookup(b, x, d) by {
        lemma_lookup_upsert(a1, k2, v2, x, d);
        lemma_lookup_upsert(l, k1, v1, x, d);
        lemma_lookup_upsert(b1, k1, v1, x, d);
        lemma_lookup_upsert(l, k2, v2, x, d);
    }
    assert forall|x: Seq<char>| #[trigger] has_key(a, x) <==> has_key(b, x) by {
        assert(has_key(a, x) <==> (has_key(a1, x) || x == k2));
        assert(has_key(b, x) <==> (has_key(b1, x) || x == k1));
        assert(has_key(a1, x) <==> (has_key(l, x) || x == k1));
        assert(has_key(b1, x) <==> (has_key(l, x) || x == k2));
    }
    lemma_sorted_ext(a, b, d);
}

/// A second upsert of the same key is all that counts.
pub proof fn lemma_upsert_twice<V>(l: Seq<(Seq<char>, V)>, k: Seq<char>, v1: V, v2: V, d: V)
    requires
        sorted_keys(keys(l)),
    ensures
        upsert(upsert(l, k, v1), k, v2) == upsert(l, k, v2),
{
    let a1 = upsert(l, k, v1);
    lemma_upsert_sorted(l, k, v1);
    lemma_upsert_sorted(a1, k, v2);
    lemma_upsert_sorted(l, k, v2);
    let a = upsert(a1, k, v2);
    let b = upsert(l, k, v2);
    assert forall|x: Seq<char>| #[trigger] lookup(a, x, d) == lookup(b, x, d) by {
        lemma_lookup_upsert(a1, k, v2, x, d);
        lemma_lookup_upsert(l, k, v1, x, d);
        lemma_lookup_upsert(l, k, v2, x, d);
    }
    assert forall|x: Seq<char>| #[trigger] has_key(a, x) <==> has_key(b, x) by {
        assert(has_key(a, x) <==> (has_key(a1, x) || x == k));
        assert(has_key(a1, x) <==> (has_key(l, x) || x == k));
        assert(has_key(b, x) <==> (has_key(l, x) || x == k));
    }
    lemma_sorted_ext(a, b, d);
}

/// The position where `k` belongs among the keys of `l`.
pub fn lower_bound_exec<V>(l: &Vec<(String, V)>, k: &Vec<char>) -> (r: usize)
    ensures
        r as int == lower_bound(string_keys(l@), k@),
        r <= l@.len(),
{
    let ghost ks = string_keys(l@);
    proof {
        lemma_lb_from(ks, k@, 0);
    }
    let mut i: usize = 0;
    while i < l.len()
        invariant
            0 <= i <= l@.len(),
            ks == string_keys(l@),
            lower_bound(ks, k@) == lb_from(ks, k@, i as int),
        decreases l.len() - i,
    {
        let key = chars_of(l[i].0.as_str());
        match compare_chars(&key, k) {
            Order::Below => {},
            _ => {
                return i;
            },
        }
        i += 1;
    }
    i
}

} // verus!
