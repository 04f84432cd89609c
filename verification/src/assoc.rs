//! Association sequences with unique keys, and the maps and sets they denote.
//!
//! The executable store keeps its registry, trackers and component sets in
//! plain vectors; these functions and lemmas relate the vector operations the
//! store performs to `Map` and `Set` operations on the abstract state.

use vstd::prelude::*;

verus! {

/// The map an association sequence denotes.
pub open spec fn assoc_map<K, V>(s: Seq<(K, V)>) -> Map<K, V>
    decreases s.len(),
{
    if s.len() == 0 {
        Map::empty()
    } else {
        assoc_map(s.drop_last()).insert(s.last().0, s.last().1)
    }
}

/// No key occurs twice.
pub open spec fn unique_keys<K, V>(s: Seq<(K, V)>) -> bool {
    forall|i: int, j: int| 0 <= i < j < s.len() ==> (#[trigger] s[i]).0 != (#[trigger] s[j]).0
}

/// A key absent from every entry is absent from the map.
pub proof fn lemma_assoc_absent<K, V>(s: Seq<(K, V)>, k: K)
    requires
        forall|i: int| 0 <= i < s.len() ==> (#[trigger] s[i]).0 != k,
    ensures
        !assoc_map(s).dom().contains(k),
    decreases s.len(),
{
    if s.len() > 0 {
        let pre = s.drop_last();
        assert(forall|i: int| 0 <= i < pre.len() ==> (#[trigger] pre[i]).0 != k);
        lemma_assoc_absent(pre, k);
        assert(s.last().0 != k);
    }
}

/// Each entry of a unique-keyed sequence is in the map, with its own value.
pub proof fn lemma_assoc_found<K, V>(s: Seq<(K, V)>, i: int)
    requires
        unique_keys(s),
        0 <= i < s.len(),
    ensures
        assoc_map(s).dom().contains(s[i].0),
        assoc_map(s)[s[i].0] == s[i].1,
    decreases s.len(),
{
    let pre = s.drop_last();
    if i + 1 == s.len() {
        assert(s.last() == s[i]);
    } else {
        assert(unique_keys(pre)) by {
            assert(forall|a: int, b: int|
                0 <= a < b < pre.len() ==> (#[trigger] pre[a]).0 != (#[trigger] pre[b]).0) by {
                assert(forall|a: int| 0 <= a < pre.len() ==> pre[a] == s[a]);
            }
        }
        lemma_assoc_found(pre, i);
        assert(pre[i] == s[i]);
        assert(s.last().0 != s[i].0);
    }
}

/// Appending an entry with a fresh key is a map `insert`.
pub proof fn lemma_assoc_push<K, V>(s: Seq<(K, V)>, k: K, v: V)
    requires
        unique_keys(s),
        forall|i: int| 0 <= i < s.len() ==> (#[trigger] s[i]).0 != k,
    ensures
        assoc_map(s.push((k, v))) == assoc_map(s).insert(k, v),
        unique_keys(s.push((k, v))),
{
    let s2 = s.push((k, v));
    assert(s2.drop_last() =~= s);
    assert(s2.last() == (k, v));
    assert(unique_keys(s2)) by {
        assert(forall|a: int| 0 <= a < s.len() ==> s2[a] == s[a]);
    }
}

/// Overwriting the value at a found index is a map `insert` on its key.
pub proof fn lemma_assoc_update<K, V>(s: Seq<(K, V)>, i: int, v: V)
    requires
        unique_keys(s),
        0 <= i < s.len(),
    ensures
        assoc_map(s.update(i, (s[i].0, v))) == assoc_map(s).insert(s[i].0, v),
        unique_keys(s.update(i, (s[i].0, v))),
    decreases s.len(),
{
    let k = s[i].0;
    let s2 = s.update(i, (k, v));
    assert(unique_keys(s2)) by {
        assert(forall|a: int| 0 <= a < s.len() ==> (#[trigger] s2[a]).0 == s[a].0);
    }
    let pre = s.drop_last();
    assert(unique_keys(pre)) by {
        assert(forall|a: int| 0 <= a < pre.len() ==> pre[a] == s[a]);
    }
    if i + 1 == s.len() {
        assert(s2.drop_last() =~= pre);
        assert(s2.last() == (k, v));
        assert(assoc_map(s2) == assoc_map(pre).insert(k, v));
        assert(assoc_map(pre).insert(k, s.last().1).insert(k, v) =~= assoc_map(pre).insert(k, v));
        assert(s.last() == s[i]);
    } else {
        let kl = s.last().0;
        let vl = s.last().1;
        assert(s2.drop_last() =~= pre.update(i, (k, v)));
        assert(s2.last() == s.last());
        assert(pre[i] == s[i]);
        lemma_assoc_update(pre, i, v);
        assert(assoc_map(s2) == assoc_map(pre).insert(k, v).insert(kl, vl));
        assert(k != kl) by {
            assert(s[i].0 == k && s[s.len() - 1].0 == kl);
        }
        assert(assoc_map(pre).insert(k, v).insert(kl, vl) =~= assoc_map(pre).insert(kl, vl).insert(
            k,
            v,
        ));
        assert(assoc_map(s) == assoc_map(pre).insert(kl, vl));
    }
}

/// Removing a found index is a map `remove` on its key.
pub proof fn lemma_assoc_remove<K, V>(s: Seq<(K, V)>, i: int)
    requires
        unique_keys(s),
        0 <= i < s.len(),
    ensures
        assoc_map(s.remove(i)) == assoc_map(s).remove(s[i].0),
        unique_keys(s.remove(i)),
    decreases s.len(),
{
    let k = s[i].0;
    let s2 = s.remove(i);
    s.remove_ensures(i);
    assert(unique_keys(s2)) by {
        assert forall|a: int, b: int|
            0 <= a < b < s2.len() implies (#[trigger] s2[a]).0 != (#[trigger] s2[b]).0 by {
            let a0 = if a < i { a } else { a + 1 };
            let b0 = if b < i { b } else { b + 1 };
            assert(s2[a] == s[a0] && s2[b] == s[b0]);
        }
    }
    let pre = s.drop_last();
    assert(unique_keys(pre)) by {
        assert(forall|a: int| 0 <= a < pre.len() ==> pre[a] == s[a]);
    }
    if i + 1 == s.len() {
        assert(s2 =~= pre);
        assert(forall|a: int| 0 <= a < pre.len() ==> (#[trigger] pre[a]).0 != k);
        lemma_assoc_absent(pre, k);
        assert(assoc_map(pre).insert(k, s.last().1).remove(k) =~= assoc_map(pre));
        assert(s.last() == s[i]);
    } else {
        let kl = s.last().0;
        let vl = s.last().1;
        assert(s2.drop_last() =~= pre.remove(i)) by {
            pre.remove_ensures(i);
        }
        assert(s2.last() == s.last()) by {
            assert(s2[s2.len() - 1] == s[s.len() - 1]);
        }
        assert(pre[i] == s[i]);
        lemma_assoc_remove(pre, i);
        assert(assoc_map(s2) == assoc_map(pre).remove(k).insert(kl, vl));
        assert(k != kl) by {
            assert(s[i].0 == k && s[s.len() - 1].0 == kl);
        }
        assert(assoc_map(pre).remove(k).insert(kl, vl) =~= assoc_map(pre).insert(kl, vl).remove(
            k,
        ));
        assert(assoc_map(s) == assoc_map(pre).insert(kl, vl));
    }
}

/// No element occurs twice.
pub open spec fn unique_elems<A>(s: Seq<A>) -> bool {
    forall|i: int, j: int| 0 <= i < j < s.len() ==> s[i] != s[j]
}

/// Appending a fresh element is a set `insert`.
pub proof fn lemma_to_set_push<A>(s: Seq<A>, x: A)
    ensures
        s.push(x).to_set() == s.to_set().insert(x),
    decreases s.len(),
{
    assert forall|y: A| s.push(x).to_set().contains(y) implies s.to_set().insert(x).contains(
        y,
    ) by {
        let i = choose|i: int| 0 <= i < s.push(x).len() && s.push(x)[i] == y;
        if i < s.len() {
            assert(s[i] == y);
        }
    }
    assert forall|y: A| s.to_set().insert(x).contains(y) implies s.push(x).to_set().contains(
        y,
    ) by {
        if y == x {
            assert(s.push(x)[s.len() as int] == y);
        } else {
            let i = choose|i: int| 0 <= i < s.len() && s[i] == y;
            assert(s.push(x)[i] == y);
        }
    }
    assert(s.push(x).to_set() =~= s.to_set().insert(x));
}

/// Removing the only occurrence of an element is a set `remove`.
pub proof fn lemma_to_set_remove<A>(s: Seq<A>, i: int)
    requires
        unique_elems(s),
        0 <= i < s.len(),
    ensures
        s.remove(i).to_set() == s.to_set().remove(s[i]),
        unique_elems(s.remove(i)),
{
    let x = s[i];
    let s2 = s.remove(i);
    s.remove_ensures(i);
    assert(unique_elems(s2)) by {
        assert forall|a: int, b: int| 0 <= a < b < s2.len() implies s2[a] != s2[b] by {
            let a0 = if a < i { a } else { a + 1 };
            let b0 = if b < i { b } else { b + 1 };
            assert(s2[a] == s[a0] && s2[b] == s[b0]);
        }
    }
    assert forall|y: A| s2.to_set().contains(y) implies s.to_set().remove(x).contains(y) by {
        let j = choose|j: int| 0 <= j < s2.len() && s2[j] == y;
        let j0 = if j < i { j } else { j + 1 };
        assert(s[j0] == y);
        assert(j0 != i);
        assert(y != x);
    }
    assert forall|y: A| s.to_set().remove(x).contains(y) implies s2.to_set().contains(y) by {
        let j = choose|j: int| 0 <= j < s.len() && s[j] == y;
        assert(j != i);
        let j2 = if j < i { j } else { j - 1 };
        assert(s2[j2] == y);
    }
    assert(s2.to_set() =~= s.to_set().remove(x));
}

} // verus!
