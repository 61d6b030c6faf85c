//! Association sequences. The store keeps each of its maps as a vector of
//! key-value entries with pairwise-distinct keys; the spec functions and
//! lemmas here interpret such a vector as a finite map.

use vstd::prelude::*;

verus! {

/// The value bound to `k`: the first entry with key `k`, scanning from the
/// front.
pub open spec fn alist_find<K, V>(s: Seq<(K, V)>, k: K) -> Option<V>
    decreases s.len(),
{
    if s.len() <= 0 {
        None
    } else if s[0].0 == k {
        Some(s[0].1)
    } else {
        alist_find(s.drop_first(), k)
    }
}

/// Pairwise-distinct keys.
pub open spec fn alist_unique<K, V>(s: Seq<(K, V)>) -> bool {
    forall|i: int, j: int| 0 <= i < j < s.len() ==> s[i].0 != s[j].0
}

/// Scanning past entries whose keys differ from `k` does not change the
/// result.
pub proof fn lemma_alist_find_skip<K, V>(s: Seq<(K, V)>, n: int, k: K)
    requires
        0 <= n <= s.len(),
        forall|i: int| 0 <= i < n ==> s[i].0 != k,
    ensures
        alist_find(s, k) == alist_find(s.skip(n), k),
    decreases n,
{
    if n > 0 {
        assert(s[0].0 != k);
        assert forall|i: int| 0 <= i < n - 1 implies s.drop_first()[i].0 != k by {
            assert(s.drop_first()[i] == s[i + 1]);
        }
        lemma_alist_find_skip(s.drop_first(), n - 1, k);
        assert(s.drop_first().skip(n - 1) =~= s.skip(n));
    } else {
        assert(s.skip(0) =~= s);
    }
}

/// A lookup misses exactly when no entry has the key.
pub proof fn lemma_alist_find_none<K, V>(s: Seq<(K, V)>, k: K)
    ensures
        alist_find(s, k) is None <==> (forall|i: int| 0 <= i < s.len() ==> s[i].0 != k),
    decreases s.len(),
{
    if s.len() > 0 {
        lemma_alist_find_none(s.drop_first(), k);
        assert forall|i: int| 0 <= i < s.drop_first().len()
            implies s.drop_first()[i] == s[i + 1] by {}
        if s[0].0 != k && alist_find(s.drop_first(), k) is None {
            assert forall|i: int| 0 <= i < s.len() implies s[i].0 != k by {
                if i > 0 {
                    assert(s[i] == s.drop_first()[i - 1]);
                }
            }
        }
    }
}

/// Appending an entry binds its key only if the key was absent; other keys
/// keep their binding.
pub proof fn lemma_alist_find_push<K, V>(s: Seq<(K, V)>, e: (K, V), k: K)
    ensures
        alist_find(s.push(e), k) == (if alist_find(s, k) is Some {
            alist_find(s, k)
        } else if e.0 == k {
            Some(e.1)
        } else {
            None
        }),
    decreases s.len(),
{
    if s.len() == 0 {
        assert(s.push(e)[0] == e);
        assert(s.push(e).drop_first() =~= Seq::<(K, V)>::empty());
        assert(alist_find(s.push(e).drop_first(), k) is None);
        if e.0 == k {
            assert(alist_find(s.push(e), k) == Some(e.1));
        } else {
            assert(alist_find(s.push(e), k) is None);
        }
    } else {
        assert(s.push(e)[0] == s[0]);
        assert(s.push(e).drop_first() =~= s.drop_first().push(e));
        lemma_alist_find_push(s.drop_first(), e, k);
        if s[0].0 == k {
            assert(alist_find(s.push(e), k) == Some(s[0].1));
            assert(alist_find(s, k) == Some(s[0].1));
        } else {
            assert(alist_find(s.push(e), k) == alist_find(s.drop_first().push(e), k));
            assert(alist_find(s, k) == alist_find(s.drop_first(), k));
        }
    }
}

/// Appending an entry with an absent key keeps the keys pairwise distinct.
pub proof fn lemma_alist_unique_push<K, V>(s: Seq<(K, V)>, e: (K, V))
    requires
        alist_unique(s),
        alist_find(s, e.0) is None,
    ensures
        alist_unique(s.push(e)),
{
    lemma_alist_find_none(s, e.0);
    assert forall|i: int, j: int| 0 <= i < j < s.push(e).len()
        implies s.push(e)[i].0 != s.push(e)[j].0 by {
        if j < s.len() {
            assert(s.push(e)[i] == s[i] && s.push(e)[j] == s[j]);
        } else {
            assert(s.push(e)[i] == s[i] && s.push(e)[j] == e);
        }
    }
}

/// Overwriting the entry at `i` rebinds exactly its key.
pub proof fn lemma_alist_find_update<K, V>(s: Seq<(K, V)>, i: int, e: (K, V), k: K)
    requires
        0 <= i < s.len(),
        s[i].0 == e.0,
        alist_unique(s),
    ensures
        alist_unique(s.update(i, e)),
        alist_find(s.update(i, e), k) == (if e.0 == k {
            Some(e.1)
        } else {
            alist_find(s, k)
        }),
    decreases s.len(),
{
    assert forall|p: int, q: int| 0 <= p < q < s.len()
        implies s.update(i, e)[p].0 != s.update(i, e)[q].0 by {}
    if i == 0 {
        assert(s.update(0, e)[0] == e);
        assert(s.update(0, e).drop_first() =~= s.drop_first());
    } else {
        assert(s.update(i, e)[0] == s[0]);
        assert(s.update(i, e).drop_first() =~= s.drop_first().update(i - 1, e));
        assert(s.drop_first()[i - 1] == s[i]);
        assert forall|p: int, q: int| 0 <= p < q < s.drop_first().len()
            implies s.drop_first()[p].0 != s.drop_first()[q].0 by {
            assert(s.drop_first()[p] == s[p + 1] && s.drop_first()[q] == s[q + 1]);
        }
        lemma_alist_find_update(s.drop_first(), i - 1, e, k);
        if s[0].0 == k {
            // by uniqueness the updated entry's key differs from `k`
            assert(s[i].0 != s[0].0);
        }
    }
}

/// The sequence with `k` bound to `v`: the first entry with key `k` is
/// replaced in place, or a new entry is appended.
pub open spec fn alist_upsert<K, V>(s: Seq<(K, V)>, k: K, v: V) -> Seq<(K, V)>
    decreases s.len(),
{
    if s.len() <= 0 {
        seq![(k, v)]
    } else if s[0].0 == k {
        seq![(k, v)] + s.drop_first()
    } else {
        seq![s[0]] + alist_upsert(s.drop_first(), k, v)
    }
}

/// Binding a key rebinds exactly that key.
pub proof fn lemma_alist_find_upsert<K, V>(s: Seq<(K, V)>, k: K, v: V, q: K)
    ensures
        alist_find(alist_upsert(s, k, v), q) == (if q == k {
            Some(v)
        } else {
            alist_find(s, q)
        }),
    decreases s.len(),
{
    let t = alist_upsert(s, k, v);
    if s.len() == 0 {
        assert(t =~= seq![(k, v)]);
        assert(t[0] == (k, v));
        assert(t.drop_first() =~= Seq::<(K, V)>::empty());
        assert(alist_find(t.drop_first(), q) is None);
        assert(alist_find(t, q) == (if q == k {
            Some(v)
        } else {
            alist_find(t.drop_first(), q)
        }));
    } else if s[0].0 == k {
        assert(t[0] == (k, v));
        assert(t.drop_first() =~= s.drop_first());
        assert(alist_find(t, q) == (if q == k {
            Some(v)
        } else {
            alist_find(t.drop_first(), q)
        }));
        assert(alist_find(s, q) == (if q == k {
            Some(s[0].1)
        } else {
            alist_find(s.drop_first(), q)
        }));
    } else {
        assert(t[0] == s[0]);
        assert(t.drop_first() =~= alist_upsert(s.drop_first(), k, v));
        lemma_alist_find_upsert(s.drop_first(), k, v, q);
        assert(alist_find(t, q) == (if s[0].0 == q {
            Some(s[0].1)
        } else {
            alist_find(t.drop_first(), q)
        }));
        assert(alist_find(s, q) == (if s[0].0 == q {
            Some(s[0].1)
        } else {
            alist_find(s.drop_first(), q)
        }));
    }
}

/// Binding a key keeps the keys pairwise distinct.
pub proof fn lemma_alist_upsert_unique<K, V>(s: Seq<(K, V)>, k: K, v: V)
    requires
        alist_unique(s),
    ensures
        alist_unique(alist_upsert(s, k, v)),
    decreases s.len(),
{
    let t = alist_upsert(s, k, v);
    if s.len() == 0 {
    } else if s[0].0 == k {
        assert(t =~= seq![(k, v)] + s.drop_first());
        assert forall|i: int, j: int| 0 <= i < j < t.len() implies t[i].0 != t[j].0 by {
            if i == 0 {
                assert(t[j] == s[j]);
                assert(s[0].0 != s[j].0);
            } else {
                assert(t[i] == s[i] && t[j] == s[j]);
            }
        }
    } else {
        assert forall|p: int, q: int| 0 <= p < q < s.drop_first().len()
            implies s.drop_first()[p].0 != s.drop_first()[q].0 by {
            assert(s.drop_first()[p] == s[p + 1] && s.drop_first()[q] == s[q + 1]);
        }
        lemma_alist_upsert_unique(s.drop_first(), k, v);
        lemma_alist_find_upsert(s.drop_first(), k, v, s[0].0);
        lemma_alist_find_none(s.drop_first(), s[0].0);
        assert(t[0] == s[0]);
        assert(t.drop_first() =~= alist_upsert(s.drop_first(), k, v));
        let u = alist_upsert(s.drop_first(), k, v);
        assert forall|j: int| 0 <= j < u.len() implies u[j].0 != s[0].0 by {
            if u[j].0 == s[0].0 {
                lemma_alist_find_none(u, s[0].0);
            }
        }
        assert forall|i: int, j: int| 0 <= i < j < t.len() implies t[i].0 != t[j].0 by {
            if i == 0 {
                assert(t[j] == u[j - 1]);
            } else {
                assert(t[i] == u[i - 1] && t[j] == u[j - 1]);
            }
        }
    }
}

/// Replacing the first entry bearing the key is the canonical upsert.
pub proof fn lemma_alist_upsert_is_update<K, V>(s: Seq<(K, V)>, i: int, k: K, v: V)
    requires
        0 <= i < s.len(),
        s[i].0 == k,
        forall|j: int| 0 <= j < i ==> s[j].0 != k,
    ensures
        alist_upsert(s, k, v) == s.update(i, (k, v)),
    decreases i,
{
    if i == 0 {
        assert(alist_upsert(s, k, v) =~= s.update(0, (k, v)));
    } else {
        assert forall|j: int| 0 <= j < i - 1 implies s.drop_first()[j].0 != k by {
            assert(s.drop_first()[j] == s[j + 1]);
        }
        assert(s.drop_first()[i - 1] == s[i]);
        lemma_alist_upsert_is_update(s.drop_first(), i - 1, k, v);
        assert(seq![s[0]] + s.drop_first().update(i - 1, (k, v)) =~= s.update(i, (k, v)));
    }
}

/// Appending an entry with an absent key is the canonical upsert.
pub proof fn lemma_alist_upsert_is_push<K, V>(s: Seq<(K, V)>, k: K, v: V)
    requires
        forall|j: int| 0 <= j < s.len() ==> s[j].0 != k,
    ensures
        alist_upsert(s, k, v) == s.push((k, v)),
    decreases s.len(),
{
    if s.len() == 0 {
        assert(alist_upsert(s, k, v) =~= s.push((k, v)));
    } else {
        assert forall|j: int| 0 <= j < s.drop_first().len()
            implies s.drop_first()[j].0 != k by {
            assert(s.drop_first()[j] == s[j + 1]);
        }
        lemma_alist_upsert_is_push(s.drop_first(), k, v);
        assert(seq![s[0]] + s.drop_first().push((k, v)) =~= s.push((k, v)));
    }
}

/// Removing the entry at `i` unbinds exactly its key.
pub proof fn lemma_alist_find_remove<K, V>(s: Seq<(K, V)>, i: int, k: K)
    requires
        0 <= i < s.len(),
        alist_unique(s),
    ensures
        alist_unique(s.remove(i)),
        alist_find(s.remove(i), k) == (if s[i].0 == k {
            None
        } else {
            alist_find(s, k)
        }),
    decreases s.len(),
{
    assert forall|p: int, q: int| 0 <= p < q < s.remove(i).len()
        implies s.remove(i)[p].0 != s.remove(i)[q].0 by {
        assert(s.remove(i)[p] == (if p < i { s[p] } else { s[p + 1] }));
        assert(s.remove(i)[q] == (if q < i { s[q] } else { s[q + 1] }));
    }
    if i == 0 {
        assert(s.remove(0) =~= s.drop_first());
        lemma_alist_find_none(s, k);
        lemma_alist_find_none(s.drop_first(), k);
        if s[0].0 == k {
            // no later entry repeats the removed key
            assert forall|j: int| 0 <= j < s.drop_first().len()
                implies s.drop_first()[j].0 != k by {
                assert(s.drop_first()[j] == s[j + 1]);
            }
        }
    } else {
        assert(s.remove(i)[0] == s[0]);
        assert(s.remove(i).drop_first() =~= s.drop_first().remove(i - 1));
        assert(s.drop_first()[i - 1] == s[i]);
        assert forall|p: int, q: int| 0 <= p < q < s.drop_first().len()
            implies s.drop_first()[p].0 != s.drop_first()[q].0 by {
            assert(s.drop_first()[p] == s[p + 1] && s.drop_first()[q] == s[q + 1]);
        }
        lemma_alist_find_remove(s.drop_first(), i - 1, k);
        if s[0].0 == k {
            assert(s[i].0 != s[0].0);
        }
    }
}

} // verus!
