//! Finite maps kept as sequences of key/value pairs with distinct keys.

use vstd::prelude::*;

verus! {

/// The map that a sequence of pairs stands for.
pub open spec fn assoc_map<K, V>(s: Seq<(K, V)>) -> Map<K, V>
    decreases s.len(),
{
    if s.len() == 0 {
        Map::empty()
    } else {
        assoc_map(s.drop_last()).insert(s.last().0, s.last().1)
    }
}

/// No key occurs twice.
pub open spec fn keys_unique<K, V>(s: Seq<(K, V)>) -> bool {
    forall|i: int, j: int| 0 <= i < s.len() && 0 <= j < s.len() && i != j ==> s[i].0 != s[j].0
}

pub proof fn lemma_assoc_map<K, V>(s: Seq<(K, V)>)
    requires
        keys_unique(s),
    ensures
        forall|i: int| 0 <= i < s.len() ==> #[trigger] assoc_map(s).dom().contains(s[i].0) && assoc_map(s)[s[i].0] == s[i].1,
        forall|k: K| #[trigger] assoc_map(s).dom().contains(k) ==> exists|i: int| 0 <= i < s.len() && s[i].0 == k,
    decreases s.len(),
{
    if s.len() > 0 {
        let prev = s.drop_last();
        assert(keys_unique(prev));
        lemma_assoc_map(prev);
        assert forall|i: int| 0 <= i < s.len() implies #[trigger] assoc_map(s).dom().contains(s[i].0) && assoc_map(s)[s[i].0] == s[i].1 by {
            if i < s.len() - 1 {
                assert(prev[i] == s[i]);
                assert(assoc_map(prev).dom().contains(prev[i].0));
                assert(s[i].0 != s[s.len() - 1].0);
            }
        }
        assert forall|k: K| #[trigger] assoc_map(s).dom().contains(k) implies exists|i: int| 0 <= i < s.len() && s[i].0 == k by {
            if k != s.last().0 {
                assert(assoc_map(prev).dom().contains(k));
                let i = choose|i: int| 0 <= i < prev.len() && prev[i].0 == k;
                assert(s[i] == prev[i]);
            } else {
                assert(s[s.len() - 1].0 == k);
            }
        }
    }
}

pub proof fn lemma_assoc_absent<K, V>(s: Seq<(K, V)>, k: K)
    requires
        keys_unique(s),
        forall|i: int| 0 <= i < s.len() ==> (#[trigger] s[i]).0 != k,
    ensures
        !assoc_map(s).dom().contains(k),
{
    lemma_assoc_map(s);
}

pub proof fn lemma_assoc_update<K, V>(s: Seq<(K, V)>, i: int, v: V)
    requires
        keys_unique(s),
        0 <= i < s.len(),
    ensures
        keys_unique(s.update(i, (s[i].0, v))),
        assoc_map(s.update(i, (s[i].0, v))) == assoc_map(s).insert(s[i].0, v),
    decreases s.len(),
{
    let s2 = s.update(i, (s[i].0, v));
    assert(keys_unique(s2));
    if i == s.len() - 1 {
        assert(s2.drop_last() =~= s.drop_last());
        assert(assoc_map(s2) =~= assoc_map(s).insert(s[i].0, v));
    } else {
        let prev = s.drop_last();
        assert(keys_unique(prev));
        lemma_assoc_update(prev, i, v);
        assert(s2.drop_last() =~= prev.update(i, (prev[i].0, v)));
        assert(s.last().0 != s[i].0);
        assert(assoc_map(s2) =~= assoc_map(s).insert(s[i].0, v));
    }
}

pub proof fn lemma_assoc_push<K, V>(s: Seq<(K, V)>, k: K, v: V)
    requires
        keys_unique(s),
        forall|i: int| 0 <= i < s.len() ==> (#[trigger] s[i]).0 != k,
    ensures
        keys_unique(s.push((k, v))),
        assoc_map(s.push((k, v))) == assoc_map(s).insert(k, v),
{
    assert(s.push((k, v)).drop_last() =~= s);
}

pub proof fn lemma_assoc_remove<K, V>(s: Seq<(K, V)>, i: int)
    requires
        keys_unique(s),
        0 <= i < s.len(),
    ensures
        keys_unique(s.remove(i)),
        assoc_map(s.remove(i)) == assoc_map(s).remove(s[i].0),
    decreases s.len(),
{
    let s2 = s.remove(i);
    s.remove_ensures(i);
    assert(keys_unique(s2)) by {
        assert forall|a: int, b: int| 0 <= a < s2.len() && 0 <= b < s2.len() && a != b implies s2[a].0 != s2[b].0 by {
            let a0 = if a < i { a } else { a + 1 };
            let b0 = if b < i { b } else { b + 1 };
            assert(s2[a] == s[a0]);
            assert(s2[b] == s[b0]);
        }
    }
    if i == s.len() - 1 {
        assert(s2 =~= s.drop_last());
        lemma_assoc_map(s2);
        assert forall|k: K| true implies !(assoc_map(s2).dom().contains(k) && k == s[i].0) by {
            if assoc_map(s2).dom().contains(k) && k == s[i].0 {
                let j = choose|j: int| 0 <= j < s2.len() && s2[j].0 == k;
                assert(s2[j] == s[j]);
            }
        }
        assert(assoc_map(s2) =~= assoc_map(s).remove(s[i].0));
    } else {
        let prev = s.drop_last();
        assert(keys_unique(prev));
        lemma_assoc_remove(prev, i);
        assert(s2.drop_last() =~= prev.remove(i)) by {
            prev.remove_ensures(i);
        }
        assert(s2.last() == s.last());
        assert(s.last().0 != s[i].0);
        assert(assoc_map(s2) =~= assoc_map(s).remove(s[i].0));
    }
}

} // verus!
