//! Finite maps kept as sequences of (key, value) pairs.

use vstd::prelude::*;

verus! {

/// The map that a sequence of pairs stands for: a later pair overrides an
/// earlier one with the same key.
pub open spec fn assoc_map<K, V>(s: Seq<(K, V)>) -> Map<K, V>
    decreases s.len(),
{
    if s.len() == 0 {
        Map::empty()
    } else {
        assoc_map(s.drop_last()).insert(s.last().0, s.last().1)
    }
}

/// No key occurs twice.
pub open spec fn keys_unique<K, V>(s: Seq<(K, V)>) -> bool {
    forall|i: int, j: int| 0 <= i < j < s.len() ==> s[i].0 != s[j].0
}


/// A key is in the map exactly when some pair carries it.
pub proof fn lemma_assoc_contains<K, V>(s: Seq<(K, V)>, k: K)
    ensures
        assoc_map(s).contains_key(k) <==> exists|i: int| 0 <= i < s.len() && s[i].0 == k,
    decreases s.len(),
{
    if s.len() > 0 {
        let d = s.drop_last();
        lemma_assoc_contains(d, k);
        if assoc_map(s).contains_key(k) {
            if s.last().0 == k {
                assert(s[s.len() - 1].0 == k);
            } else {
                let i = choose|i: int| 0 <= i < d.len() && d[i].0 == k;
                assert(s[i].0 == k);
            }
        }
        if exists|i: int| 0 <= i < s.len() && s[i].0 == k {
            let i = choose|i: int| 0 <= i < s.len() && s[i].0 == k;
            if i < s.len() - 1 {
                assert(d[i].0 == k);
            }
        }
    }
}

/// With unique keys, the map gives each key the value of its pair.
pub proof fn lemma_assoc_get<K, V>(s: Seq<(K, V)>, i: int)
    requires
        keys_unique(s),
        0 <= i < s.len(),
    ensures
        assoc_map(s).contains_key(s[i].0),
        assoc_map(s)[s[i].0] == s[i].1,
    decreases s.len(),
{
    if i < s.len() - 1 {
        let d = s.drop_last();
        assert(d[i] == s[i]);
        lemma_assoc_get(d, i);
        assert(s[i].0 != s[s.len() - 1].0);
    }
}

/// Appending a pair inserts it.
pub proof fn lemma_assoc_push<K, V>(s: Seq<(K, V)>, k: K, v: V)
    ensures
        assoc_map(s.push((k, v))) == assoc_map(s).insert(k, v),
{
    assert(s.push((k, v)).drop_last() =~= s);
}

/// Replacing the value of a pair in place is an insert of that key.
pub proof fn lemma_assoc_update<K, V>(s: Seq<(K, V)>, i: int, v: V)
    requires
        keys_unique(s),
        0 <= i < s.len(),
    ensures
        keys_unique(s.update(i, (s[i].0, v))),
        assoc_map(s.update(i, (s[i].0, v))) == assoc_map(s).insert(s[i].0, v),
    decreases s.len(),
{
    let t = s.update(i, (s[i].0, v));
    let d = s.drop_last();
    assert(keys_unique(t)) by {
        assert forall|a: int, b: int| 0 <= a < b < t.len() implies t[a].0 != t[b].0 by {
            assert(t[a].0 == s[a].0 && t[b].0 == s[b].0);
        }
    }
    if i == s.len() - 1 {
        assert(t.drop_last() =~= d);
        assert(assoc_map(t) =~= assoc_map(s).insert(s[i].0, v));
    } else {
        assert(d[i] == s[i]);
        assert(t.drop_last() =~= d.update(i, (d[i].0, v)));
        lemma_assoc_update(d, i, v);
        assert(s[i].0 != s.last().0);
        assert(assoc_map(t) =~= assoc_map(s).insert(s[i].0, v));
    }
}

/// With unique keys, the map has as many keys as there are pairs.
pub proof fn lemma_assoc_len<K, V>(s: Seq<(K, V)>)
    requires
        keys_unique(s),
    ensures
        assoc_map(s).dom().finite(),
        assoc_map(s).dom().len() == s.len(),
    decreases s.len(),
{
    if s.len() > 0 {
        let d = s.drop_last();
        lemma_assoc_len(d);
        lemma_assoc_contains(d, s.last().0);
        assert(!assoc_map(d).contains_key(s.last().0));
        assert(assoc_map(s).dom() =~= assoc_map(d).dom().insert(s.last().0));
    }
}

/// Mapping the values of the pairs maps the values of the map.
pub proof fn lemma_assoc_map_values<K, V, W>(s: Seq<(K, V)>, f: spec_fn(V) -> W)
    ensures
        assoc_map(s.map_values(|p: (K, V)| (p.0, f(p.1)))) == assoc_map(s).map_values(f),
    decreases s.len(),
{
    let g = |p: (K, V)| (p.0, f(p.1));
    if s.len() == 0 {
        assert(assoc_map(s).map_values(f) =~= Map::empty());
        assert(s.map_values(g) =~= Seq::empty());
    } else {
        let d = s.drop_last();
        lemma_assoc_map_values(d, f);
        assert(s.map_values(g).drop_last() =~= d.map_values(g));
        assert(assoc_map(s.map_values(g)) =~= assoc_map(s).map_values(f));
    }
}

} // verus!
