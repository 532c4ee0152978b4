//! Association-list model of a key-value store with create-if-absent
//! creation and in-place mutation of existing keys.
//!
//! The stores of the vault core keep their records in insertion order; a
//! record is addressed by a key that no second record may carry. `assoc_get`
//! is the mathematical reading of such a store, and the lemmas here say how
//! it changes under append and in-place update.

use vstd::prelude::*;

verus! {

/// Value bound to `k`, if any pair of `s` carries that key.
pub open spec fn assoc_get<K, V>(s: Seq<(K, V)>, k: K) -> Option<V>
    decreases s.len(),
{
    if s.len() == 0 {
        None::<V>
    } else if s.last().0 == k {
        Some(s.last().1)
    } else {
        assoc_get(s.drop_last(), k)
    }
}

/// No two pairs of `s` share a key.
pub open spec fn keys_unique<K, V>(s: Seq<(K, V)>) -> bool {
    forall|i: int, j: int|
        #![trigger s[i], s[j]]
        0 <= i < j < s.len() ==> s[i].0 != s[j].0
}

/// A key is unbound exactly when no pair carries it.
pub proof fn lemma_assoc_absent<K, V>(s: Seq<(K, V)>, k: K)
    ensures
        assoc_get(s, k) is None <==> (forall|i: int| 0 <= i < s.len() ==> (#[trigger] s[i]).0 != k),
    decreases s.len(),
{
    if s.len() > 0 {
        lemma_assoc_absent(s.drop_last(), k);
        assert(s.last() == s[s.len() - 1]);
        if assoc_get(s, k) is None {
            assert forall|i: int| 0 <= i < s.len() implies (#[trigger] s[i]).0 != k by {
                if i < s.len() - 1 {
                    assert(s.drop_last()[i] == s[i]);
                }
            }
        }
        if forall|i: int| 0 <= i < s.len() ==> (#[trigger] s[i]).0 != k {
            assert forall|i: int|
                0 <= i < s.drop_last().len() implies (#[trigger] s.drop_last()[i]).0 != k by {
                assert(s.drop_last()[i] == s[i]);
            }
            assert(assoc_get(s.drop_last(), k) is None);
        }
    }
}

/// A bound key has its pair at some index.
pub proof fn lemma_assoc_some_index<K, V>(s: Seq<(K, V)>, k: K)
    requires
        assoc_get(s, k) is Some,
    ensures
        exists|i: int|
            0 <= i < s.len() && (#[trigger] s[i]).0 == k && s[i].1 == assoc_get(s, k).unwrap(),
    decreases s.len(),
{
    if s.last().0 == k {
        assert(s[s.len() - 1] == s.last());
    } else {
        lemma_assoc_some_index(s.drop_last(), k);
        let i = choose|i: int|
            0 <= i < s.drop_last().len() && (#[trigger] s.drop_last()[i]).0 == k
                && s.drop_last()[i].1 == assoc_get(s.drop_last(), k).unwrap();
        assert(s.drop_last()[i] == s[i]);
        assert(0 <= i < s.len() && s[i].0 == k && s[i].1 == assoc_get(s, k).unwrap());
    }
}

/// With unique keys, lookup at the key of any pair returns that pair's value.
pub proof fn lemma_assoc_at_index<K, V>(s: Seq<(K, V)>, i: int)
    requires
        keys_unique(s),
        0 <= i < s.len(),
    ensures
        assoc_get(s, s[i].0) == Some(s[i].1),
    decreases s.len(),
{
    assert(s.last() == s[s.len() - 1]);
    if i < s.len() - 1 {
        assert(s[i].0 != s[s.len() - 1].0);
        assert forall|a: int, b: int|
            #![trigger s.drop_last()[a], s.drop_last()[b]]
            0 <= a < b < s.drop_last().len() implies s.drop_last()[a].0 != s.drop_last()[b].0 by {
            assert(s.drop_last()[a] == s[a]);
            assert(s.drop_last()[b] == s[b]);
        }
        lemma_assoc_at_index(s.drop_last(), i);
        assert(s.drop_last()[i] == s[i]);
    }
}

/// Appending a pair binds its key and leaves every other key unchanged; if
/// the key was absent, uniqueness is preserved.
pub proof fn lemma_assoc_push<K, V>(s: Seq<(K, V)>, p: (K, V))
    ensures
        assoc_get(s.push(p), p.0) == Some(p.1),
        forall|k2: K| k2 != p.0 ==> #[trigger] assoc_get(s.push(p), k2) == assoc_get(s, k2),
        keys_unique(s) && assoc_get(s, p.0) is None ==> keys_unique(s.push(p)),
{
    let s2 = s.push(p);
    assert(s2.drop_last() =~= s);
    assert(s2.last() == p);
    if keys_unique(s) && assoc_get(s, p.0) is None {
        lemma_assoc_absent(s, p.0);
        assert forall|a: int, b: int|
            #![trigger s2[a], s2[b]]
            0 <= a < b < s2.len() implies s2[a].0 != s2[b].0 by {
            assert(s2[a] == s[a]);
            if b < s.len() {
                assert(s2[b] == s[b]);
            } else {
                assert(s2[b] == p);
            }
        }
    }
}

/// Rebinding the value at one index (its key kept) rebinds that key alone;
/// uniqueness is preserved.
pub proof fn lemma_assoc_update<K, V>(s: Seq<(K, V)>, i: int, v: V)
    requires
        keys_unique(s),
        0 <= i < s.len(),
    ensures
        assoc_get(s.update(i, (s[i].0, v)), s[i].0) == Some(v),
        forall|k2: K|
            k2 != s[i].0 ==> #[trigger] assoc_get(s.update(i, (s[i].0, v)), k2) == assoc_get(
                s,
                k2,
            ),
        keys_unique(s.update(i, (s[i].0, v))),
    decreases s.len(),
{
    let s2 = s.update(i, (s[i].0, v));
    assert forall|a: int, b: int|
        #![trigger s2[a], s2[b]]
        0 <= a < b < s2.len() implies s2[a].0 != s2[b].0 by {
        assert(s[a].0 != s[b].0);
        assert(s2[a].0 == s[a].0);
        assert(s2[b].0 == s[b].0);
    }
    assert(s.last() == s[s.len() - 1]);
    if i == s.len() - 1 {
        assert(s2.last() == (s[i].0, v));
        assert(s2.drop_last() =~= s.drop_last());
        assert forall|k2: K| k2 != s[i].0 implies #[trigger] assoc_get(s2, k2) == assoc_get(
            s,
            k2,
        ) by {
            assert(assoc_get(s2, k2) == assoc_get(s2.drop_last(), k2));
            assert(assoc_get(s, k2) == assoc_get(s.drop_last(), k2));
        }
    } else {
        assert(s2.last() == s.last());
        assert(s2.drop_last() =~= s.drop_last().update(i, (s[i].0, v)));
        assert forall|a: int, b: int|
            #![trigger s.drop_last()[a], s.drop_last()[b]]
            0 <= a < b < s.drop_last().len() implies s.drop_last()[a].0 != s.drop_last()[b].0 by {
            assert(s.drop_last()[a] == s[a]);
            assert(s.drop_last()[b] == s[b]);
        }
        assert(s.drop_last()[i] == s[i]);
        lemma_assoc_update(s.drop_last(), i, v);
        assert(s[i].0 != s[s.len() - 1].0);
        assert(assoc_get(s2, s[i].0) == assoc_get(s2.drop_last(), s[i].0));
        assert(assoc_get(s2, s[i].0) == Some(v));
        assert forall|k2: K| k2 != s[i].0 implies #[trigger] assoc_get(s2, k2) == assoc_get(
            s,
            k2,
        ) by {
            if s.last().0 == k2 {
            } else {
                assert(assoc_get(s2, k2) == assoc_get(s2.drop_last(), k2));
                assert(assoc_get(s, k2) == assoc_get(s.drop_last(), k2));
            }
        }
    }
}

} // verus!
