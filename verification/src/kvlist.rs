//! Association vectors keyed by `Uint256`, with their mathematical `Map`
//! view and the lemmas that relate vector edits to map edits. The cache and
//! the lifecycle store both keep their registries this way.

use vstd::prelude::*;
use crate::ids::Uint256;

verus! {

/// The mathematical map held by an association list (later entries shadow
/// earlier ones; with unique keys the order is irrelevant).
pub open spec fn kv_map<V>(s: Seq<(Uint256, V)>) -> Map<Uint256, V>
    decreases s.len(),
{
    if s.len() == 0 {
        Map::empty()
    } else {
        kv_map(s.drop_last()).insert(s.last().0, s.last().1)
    }
}

/// No key occurs twice.
pub open spec fn kv_unique<V>(s: Seq<(Uint256, V)>) -> bool {
    forall|i: int, j: int|
        0 <= i < j < s.len() ==> (#[trigger] s[i]).0 != (#[trigger] s[j]).0
}

/// Some entry carries the key `k`.
pub open spec fn kv_has_key<V>(s: Seq<(Uint256, V)>, k: Uint256) -> bool {
    exists|i: int| 0 <= i < s.len() && (#[trigger] s[i]).0 == k
}

/// The map's domain is exactly the set of keys that occur in the list.
pub proof fn lemma_kv_map_dom<V>(s: Seq<(Uint256, V)>)
    ensures
        forall|k: Uint256| #[trigger] kv_map(s).dom().contains(k) <==> kv_has_key(s, k),
    decreases s.len(),
{
    if s.len() > 0 {
        let pre = s.drop_last();
        lemma_kv_map_dom(pre);
        assert forall|k: Uint256| #[trigger] kv_map(s).dom().contains(k) implies kv_has_key(s, k) by {
            assert(kv_map(s) == kv_map(pre).insert(s.last().0, s.last().1));
            if k == s.last().0 {
                assert(s[s.len() - 1].0 == k);
            } else {
                assert(kv_map(pre).dom().contains(k));
                assert(kv_has_key(pre, k));
                let i = choose|i: int| 0 <= i < pre.len() && (#[trigger] pre[i]).0 == k;
                assert(pre[i] == s[i]);
                assert(s[i].0 == k);
            }
        }
        assert forall|k: Uint256| kv_has_key(s, k) implies #[trigger] kv_map(s).dom().contains(k) by {
            assert(kv_map(s) == kv_map(pre).insert(s.last().0, s.last().1));
            let i = choose|i: int| 0 <= i < s.len() && (#[trigger] s[i]).0 == k;
            if i < s.len() - 1 {
                assert(pre[i] == s[i]);
                assert(pre[i].0 == k);
                assert(kv_has_key(pre, k));
                assert(kv_map(pre).dom().contains(k));
            } else {
                assert(s.last().0 == k);
            }
        }
    }
}

/// With unique keys, the entry at index `i` gives the map's value at its key.
pub proof fn lemma_kv_map_index<V>(s: Seq<(Uint256, V)>, i: int)
    requires
        kv_unique(s),
        0 <= i < s.len(),
    ensures
        kv_map(s).dom().contains(s[i].0),
        kv_map(s)[s[i].0] == s[i].1,
    decreases s.len(),
{
    if i == s.len() - 1 {
        lemma_kv_map_dom(s);
    } else {
        let pre = s.drop_last();
        assert(pre[i] == s[i]);
        lemma_kv_map_index(pre, i);
        assert(s[i].0 != s.last().0);
    }
}

/// Appending a fresh entry inserts its pair into the map.
pub proof fn lemma_kv_map_push<V>(s: Seq<(Uint256, V)>, k: Uint256, v: V)
    ensures
        kv_map(s.push((k, v))) == kv_map(s).insert(k, v),
{
    assert(s.push((k, v)).drop_last() =~= s);
    assert(s.push((k, v)).last() == (k, v));
}

/// With unique keys, removing the entry at index `i` removes its key from
/// the map.
pub proof fn lemma_kv_map_remove<V>(s: Seq<(Uint256, V)>, i: int)
    requires
        kv_unique(s),
        0 <= i < s.len(),
    ensures
        kv_map(s.remove(i)) =~= kv_map(s).remove(s[i].0),
        kv_unique(s.remove(i)),
    decreases s.len(),
{
    let r = s.remove(i);
    assert forall|x: int, y: int| 0 <= x < y < r.len() implies (#[trigger] r[x]).0 != (#[trigger] r[y]).0 by {
        let xs: int = if x < i { x } else { x + 1 };
        let ys: int = if y < i { y } else { y + 1 };
        assert(r[x] == s[xs] && r[y] == s[ys]);
    }
    if i == s.len() - 1 {
        assert(s.remove(i) =~= s.drop_last());
        lemma_kv_map_dom(s.drop_last());
        assert(!kv_has_key(s.drop_last(), s[i].0)) by {
            if kv_has_key(s.drop_last(), s[i].0) {
                let j = choose|j: int|
                    0 <= j < s.drop_last().len() && (#[trigger] s.drop_last()[j]).0 == s[i].0;
                assert(s[j].0 == s[i].0);
            }
        }
        assert(kv_map(s.drop_last()) =~= kv_map(s.drop_last()).remove(s[i].0));
        assert(kv_map(s).remove(s[i].0) =~= kv_map(s.drop_last()).remove(s[i].0));
    } else {
        let pre = s.drop_last();
        assert(pre[i] == s[i]);
        lemma_kv_map_remove(pre, i);
        assert(s.remove(i).drop_last() =~= pre.remove(i));
        assert(s.remove(i).last() == s.last());
        assert(s[i].0 != s.last().0);
        assert(kv_map(s.remove(i)) =~= kv_map(pre).remove(s[i].0).insert(s.last().0, s.last().1));
        assert(kv_map(pre).remove(s[i].0).insert(s.last().0, s.last().1) =~= kv_map(
            pre,
        ).insert(s.last().0, s.last().1).remove(s[i].0));
    }
}

/// With unique keys, replacing the value at index `i` (key kept) updates the
/// map at that key.
pub proof fn lemma_kv_map_update<V>(s: Seq<(Uint256, V)>, i: int, v: V)
    requires
        kv_unique(s),
        0 <= i < s.len(),
    ensures
        kv_map(s.update(i, (s[i].0, v))) =~= kv_map(s).insert(s[i].0, v),
        kv_unique(s.update(i, (s[i].0, v))),
    decreases s.len(),
{
    let u = s.update(i, (s[i].0, v));
    assert forall|x: int, y: int| 0 <= x < y < u.len() implies (#[trigger] u[x]).0 != (#[trigger] u[y]).0 by {
        assert(u[x].0 == s[x].0 && u[y].0 == s[y].0);
    }
    if i == s.len() - 1 {
        assert(u.drop_last() =~= s.drop_last());
        assert(u.last() == (s[i].0, v));
    } else {
        let pre = s.drop_last();
        assert(pre[i] == s[i]);
        lemma_kv_map_update(pre, i, v);
        assert(u.drop_last() =~= pre.update(i, (s[i].0, v)));
        assert(u.last() == s.last());
        assert(s[i].0 != s.last().0);
        assert(kv_map(u) =~= kv_map(pre).insert(s[i].0, v).insert(s.last().0, s.last().1));
        assert(kv_map(pre).insert(s[i].0, v).insert(s.last().0, s.last().1) =~= kv_map(
            pre,
        ).insert(s.last().0, s.last().1).insert(s[i].0, v));
    }
}

/// With unique keys, the map has exactly one entry per list element.
pub proof fn lemma_kv_map_len<V>(s: Seq<(Uint256, V)>)
    requires
        kv_unique(s),
    ensures
        kv_map(s).dom().finite(),
        kv_map(s).dom().len() == s.len(),
    decreases s.len(),
{
    if s.len() > 0 {
        let pre = s.drop_last();
        lemma_kv_map_len(pre);
        lemma_kv_map_dom(pre);
        assert(!kv_has_key(pre, s.last().0)) by {
            if kv_has_key(pre, s.last().0) {
                let j = choose|j: int| 0 <= j < pre.len() && (#[trigger] pre[j]).0 == s.last().0;
                assert(s[j].0 == s[s.len() - 1].0);
            }
        }
        assert(kv_map(s).dom() =~= kv_map(pre).dom().insert(s.last().0));
        vstd::set::axiom_set_insert_len(kv_map(pre).dom(), s.last().0);
    }
}

/// Index of the entry carrying key `k`, if any.
pub fn kv_find<V>(v: &Vec<(Uint256, V)>, k: Uint256) -> (r: Option<usize>)
    ensures
        match r {
            Some(i) => i < v@.len() && v@[i as int].0 == k,
            None => !kv_has_key(v@, k),
        },
{
    let mut i: usize = 0;
    while i < v.len()
        invariant
            i <= v@.len(),
            forall|j: int| 0 <= j < i ==> (#[trigger] v@[j]).0 != k,
        decreases v@.len() - i,
    {
        if v[i].0 == k {
            return Some(i);
        }
        i += 1;
    }
    None
}

} // verus!
