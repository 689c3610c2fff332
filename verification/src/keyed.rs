//! Lists used as maps from texts and as sets of texts: a key written again
//! replaces its entry in place, and an item added again is not repeated.

use vstd::prelude::*;
use crate::text::str_eq;

verus! {

/// Some entry of `m` has key `k`.
pub open spec fn has_key<V>(m: Seq<(Seq<char>, V)>, k: Seq<char>) -> bool {
    exists|i: int| 0 <= i < m.len() && (#[trigger] m[i]).0 == k
}

/// `i` is the first place of key `k` in `m`.
pub open spec fn first_key_at<V>(m: Seq<(Seq<char>, V)>, k: Seq<char>, i: int) -> bool {
    &&& 0 <= i < m.len()
    &&& m[i].0 == k
    &&& forall|j: int| 0 <= j < i ==> (#[trigger] m[j]).0 != k
}

/// `m` with `k` mapped to `v`: the entry of `k` replaced where it stands, or
/// `(k, v)` added at the end.
pub open spec fn assoc_put<V>(m: Seq<(Seq<char>, V)>, k: Seq<char>, v: V) -> Seq<(Seq<char>, V)> {
    if has_key(m, k) {
        m.update(choose|i: int| first_key_at(m, k, i), (k, v))
    } else {
        m.push((k, v))
    }
}

/// The entries of `kvs` written in order into an empty map.
pub open spec fn assoc_fold<V>(kvs: Seq<(Seq<char>, V)>) -> Seq<(Seq<char>, V)>
    decreases kvs.len(),
{
    if kvs.len() == 0 {
        Seq::empty()
    } else {
        assoc_put(assoc_fold(kvs.drop_last()), kvs.last().0, kvs.last().1)
    }
}

/// No key occurs twice.
pub open spec fn keys_distinct<V>(m: Seq<(Seq<char>, V)>) -> bool {
    forall|i: int, j: int| 0 <= i < j < m.len() ==> (#[trigger] m[i]).0 != (#[trigger] m[j]).0
}

/// `x` added to the set `s`.
pub open spec fn set_put(s: Seq<Seq<char>>, x: Seq<char>) -> Seq<Seq<char>> {
    if s.contains(x) {
        s
    } else {
        s.push(x)
    }
}

proof fn lemma_first_below<V>(m: Seq<(Seq<char>, V)>, k: Seq<char>, w: int)
    requires
        0 <= w < m.len(),
        m[w].0 == k,
    ensures
        exists|i: int| first_key_at(m, k, i),
    decreases w,
{
    if exists|j: int| 0 <= j < w && (#[trigger] m[j]).0 == k {
        let j = choose|j: int| 0 <= j < w && (#[trigger] m[j]).0 == k;
        lemma_first_below(m, k, j);
    } else {
        assert(first_key_at(m, k, w));
    }
}

/// Where `k` is a key of `m`, it has a first place, and only one.
pub proof fn lemma_first_key<V>(m: Seq<(Seq<char>, V)>, k: Seq<char>)
    requires
        has_key(m, k),
    ensures
        first_key_at(m, k, choose|i: int| first_key_at(m, k, i)),
        forall|i: int| first_key_at(m, k, i) ==> i == choose|i: int| first_key_at(m, k, i),
{
    let w = choose|i: int| 0 <= i < m.len() && (#[trigger] m[i]).0 == k;
    lemma_first_below(m, k, w);
    let c = choose|i: int| first_key_at(m, k, i);
    assert forall|i: int| first_key_at(m, k, i) implies i == c by {
        if i < c {
            assert(m[i].0 != k);
        } else if c < i {
            assert(m[c].0 != k);
        }
    }
}

/// Writing a key into a map: afterwards the key maps to the value written,
/// every other entry stays, and a map whose keys are distinct stays so.
pub proof fn lemma_assoc_put<V>(m: Seq<(Seq<char>, V)>, k: Seq<char>, v: V)
    ensures
        has_key(assoc_put(m, k, v), k),
        forall|i: int| 0 <= i < assoc_put(m, k, v).len() && (#[trigger] assoc_put(m, k, v)[i]).0 == k
            && keys_distinct(m) ==> assoc_put(m, k, v)[i].1 == v,
        forall|i: int| 0 <= i < m.len() && (#[trigger] m[i]).0 != k ==> assoc_put(m, k, v).contains(m[i]),
        keys_distinct(m) ==> keys_distinct(assoc_put(m, k, v)),
        forall|i: int| 0 <= i < assoc_put(m, k, v).len() ==> #[trigger] assoc_put(m, k, v)[i] == (k, v)
            || (exists|j: int| 0 <= j < m.len() && m[j] == assoc_put(m, k, v)[i]),
{
    let r = assoc_put(m, k, v);
    if has_key(m, k) {
        lemma_first_key(m, k);
        let c = choose|i: int| first_key_at(m, k, i);
        assert(r[c] == (k, v));
        assert forall|i: int| 0 <= i < r.len() implies #[trigger] r[i] == (k, v)
            || (exists|j: int| 0 <= j < m.len() && m[j] == r[i]) by {
            if i != c {
                assert(m[i] == r[i]);
            }
        }
        assert forall|i: int| 0 <= i < m.len() && (#[trigger] m[i]).0 != k implies r.contains(m[i]) by {
            assert(r[i] == m[i]);
        }
        if keys_distinct(m) {
            assert forall|i: int, j: int| 0 <= i < j < r.len() implies (#[trigger] r[i]).0 != (#[trigger] r[j]).0 by {
                assert(m[i].0 != m[j].0);
            }
            assert forall|i: int| 0 <= i < r.len() && (#[trigger] r[i]).0 == k implies r[i].1 == v by {
                if i != c {
                    assert(m[i].0 == k);
                    if i < c {
                        assert(m[i].0 != m[c].0);
                    } else {
                        assert(m[c].0 != m[i].0);
                    }
                }
            }
        }
    } else {
        assert(r[m.len() as int] == (k, v));
        assert forall|i: int| 0 <= i < r.len() implies #[trigger] r[i] == (k, v)
            || (exists|j: int| 0 <= j < m.len() && m[j] == r[i]) by {
            if i < m.len() {
                assert(m[i] == r[i]);
            }
        }
        assert forall|i: int| 0 <= i < m.len() && (#[trigger] m[i]).0 != k implies r.contains(m[i]) by {
            assert(r[i] == m[i]);
        }
        if keys_distinct(m) {
            assert forall|i: int, j: int| 0 <= i < j < r.len() implies (#[trigger] r[i]).0 != (#[trigger] r[j]).0 by {
                if j == m.len() {
                    assert(m[i].0 != k);
                } else {
                    assert(m[i].0 != m[j].0);
                }
            }
        }
    }
}

/// A map written entry by entry has distinct keys.
pub proof fn lemma_assoc_fold_distinct<V>(kvs: Seq<(Seq<char>, V)>)
    ensures
        keys_distinct(assoc_fold(kvs)),
    decreases kvs.len(),
{
    if kvs.len() > 0 {
        lemma_assoc_fold_distinct(kvs.drop_last());
        lemma_assoc_put(assoc_fold(kvs.drop_last()), kvs.last().0, kvs.last().1);
    }
}

/// Adding to a set repeats nothing, and the item is in it afterwards.
pub proof fn lemma_set_put(s: Seq<Seq<char>>, x: Seq<char>)
    ensures
        set_put(s, x).contains(x),
        forall|y: Seq<char>| s.contains(y) ==> set_put(s, x).contains(y),
        s.no_duplicates() ==> set_put(s, x).no_duplicates(),
{
    if !s.contains(x) {
        assert(set_put(s, x)[s.len() as int] == x);
        assert forall|y: Seq<char>| s.contains(y) implies set_put(s, x).contains(y) by {
            let i = choose|i: int| 0 <= i < s.len() && s[i] == y;
            assert(set_put(s, x)[i] == y);
        }
    }
}

/// Writes `k` ↦ `v` into `m`.
pub fn put_entry<V: DeepView>(m: &mut Vec<(String, V)>, k: String, v: V)
    ensures
        final(m).deep_view() == assoc_put(old(m).deep_view(), k@, v.deep_view()),
{
    let ghost m0 = m.deep_view();
    let mut i: usize = 0;
    while i < m.len()
        invariant
            i <= m.len(),
            m.deep_view() == m0,
            m0 == old(m).deep_view(),
            forall|j: int| 0 <= j < i ==> (#[trigger] m0[j]).0 != k@,
        decreases m.len() - i,
    {
        if str_eq(m[i].0.as_str(), k.as_str()) {
            assert(m0[i as int].0 == k@);
            assert(first_key_at(m0, k@, i as int));
            proof {
                lemma_first_key(m0, k@);
            }
            assert(has_key(m0, k@));
            assert((choose|j: int| first_key_at(m0, k@, j)) == i as int);
            let ghost kv = (k@, v.deep_view());
            m.set(i, (k, v));
            assert(m.deep_view() =~= m0.update(i as int, kv));
            assert(assoc_put(m0, k@, kv.1) == m0.update(i as int, kv));
            return;
        }
        i = i + 1;
    }
    assert(!has_key(m0, k@));
    let ghost kv = (k@, v.deep_view());
    m.push((k, v));
    assert(m.deep_view() =~= m0.push(kv));
}

/// The entries of `kvs` written in order into an empty map.
pub fn fold_entries(kvs: Vec<(String, String)>) -> (r: Vec<(String, String)>)
    ensures
        r.deep_view() == assoc_fold(kvs.deep_view()),
{
    let ghost all = kvs.deep_view();
    let mut r: Vec<(String, String)> = Vec::new();
    let mut n: usize = 0;
    assert(all.take(0) =~= Seq::<(Seq<char>, Seq<char>)>::empty());
    assert(r.deep_view() =~= Seq::<(Seq<char>, Seq<char>)>::empty());
    while n < kvs.len()
        invariant
            n <= kvs.len(),
            all == kvs.deep_view(),
            r.deep_view() == assoc_fold(all.take(n as int)),
        decreases kvs.len() - n,
    {
        let k = kvs[n].0.clone();
        let v = kvs[n].1.clone();
        assert((k@, v@) == all[n as int]);
        assert(all.take(n + 1).drop_last() =~= all.take(n as int));
        put_entry(&mut r, k, v);
        n = n + 1;
    }
    assert(all.take(n as int) =~= all);
    r
}

/// Adds `x` to the set `s`.
pub fn put_item(s: &mut Vec<String>, x: String)
    ensures
        final(s).deep_view() == set_put(old(s).deep_view(), x@),
{
    let ghost s0 = s.deep_view();
    let mut i: usize = 0;
    while i < s.len()
        invariant
            i <= s.len(),
            s.deep_view() == s0,
            forall|j: int| 0 <= j < i ==> s0[j] != x@,
        decreases s.len() - i,
    {
        if str_eq(s[i].as_str(), x.as_str()) {
            assert(s0[i as int] == x@);
            assert(s0.contains(x@));
            return;
        }
        i = i + 1;
    }
    assert(!s0.contains(x@));
    s.push(x);
    assert(s.deep_view() =~= s0.push(x@));
}

} // verus!
