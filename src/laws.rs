//! Laws that relate the operations of the map and the set.
use crate::map::{
    has_key, inserted, inserted_all, keys, keys_distinct, or_inserted, position_of, value_of,
    IndexMap,
};
use crate::set::{position_in, set_inserted, IndexSet};
use vstd::prelude::*;

verus! {

/// In a well-formed map no two slots share a key, and the index resolves the
/// key of every slot to that slot's own position.
pub proof fn lemma_map_index_consistent<K, V>(m: &IndexMap<K, V>)
    requires
        m.wf(),
    ensures
        keys_distinct(m@),
        forall|i: int|
            0 <= i < m@.len() ==> has_key(m@, #[trigger] m@[i].0) && position_of(m@, m@[i].0)
                == i,
{
    m.lemma_wf_keys();
}

/// In a well-formed set no element occurs twice, and the index resolves every
/// element to its own position.
pub proof fn lemma_set_index_consistent<T>(s: &IndexSet<T>)
    requires
        s.wf(),
    ensures
        s@.no_duplicates(),
        forall|i: int| 0 <= i < s@.len() ==> position_in(s@, #[trigger] s@[i]) == i,
{
    s.lemma_wf_distinct();
    assert forall|i: int| 0 <= i < s@.len() implies position_in(s@, #[trigger] s@[i]) == i by {
        assert(s@.contains(s@[i]));
    }
}

/// Overwriting the value of a key that is present leaves the order of the
/// keys as it was.
pub proof fn lemma_update_keeps_order<K, V>(s: Seq<(K, V)>, k: K, v: V)
    requires
        has_key(s, k),
    ensures
        keys(inserted(s, k, v)) == keys(s),
{
    let i = position_of(s, k);
    assert(keys(inserted(s, k, v)) =~= keys(s));
}

/// Inserting `v1` under a new key and then `v2` under the same key: the
/// first finds no value, the second finds `v1`, the key ends up holding `v2`,
/// and the map grows by one entry.
pub proof fn lemma_update_semantics<K, V>(s: Seq<(K, V)>, k: K, v1: V, v2: V)
    requires
        !has_key(s, k),
    ensures
        value_of(s, k) is None,
        value_of(inserted(s, k, v1), k) == Some(v1),
        value_of(inserted(inserted(s, k, v1), k, v2), k) == Some(v2),
        inserted(inserted(s, k, v1), k, v2).len() == s.len() + 1,
{
    lemma_absent_push(s, k, v1);
    let s1 = inserted(s, k, v1);
    let s2 = inserted(s1, k, v2);
    assert(s2[s.len() as int].0 == k);
    lemma_single_position(s2, k, s.len() as int);
}

/// Where `k` is absent, the only entry of `s.push((k, v))` with key `k` is the
/// new last one.
proof fn lemma_absent_push<K, V>(s: Seq<(K, V)>, k: K, v: V)
    requires
        !has_key(s, k),
    ensures
        inserted(s, k, v) == s.push((k, v)),
        has_key(s.push((k, v)), k),
        position_of(s.push((k, v)), k) == s.len(),
{
    let t = s.push((k, v));
    assert(t[s.len() as int].0 == k);
    lemma_single_position(t, k, s.len() as int);
}

/// If the entry at `j` is the only one with key `k`, it is the position of `k`.
proof fn lemma_single_position<K, V>(s: Seq<(K, V)>, k: K, j: int)
    requires
        0 <= j < s.len(),
        s[j].0 == k,
        forall|i: int| 0 <= i < s.len() && s[i].0 == k ==> i == j,
    ensures
        has_key(s, k),
        position_of(s, k) == j,
{
}

/// `entry(k).or_insert(d)` acts as looking the value up and inserting `d`
/// first where it is missing: the value the caller starts from is the same,
/// and any value `w` written through the reference gives the same entries.
pub proof fn lemma_entry_equivalence<K, V>(s: Seq<(K, V)>, k: K, d: V, w: V)
    requires
        keys_distinct(s),
    ensures
        value_of(or_inserted(s, k, d), k) == Some(
            match value_of(s, k) {
                Some(v) => v,
                None => d,
            },
        ),
        !has_key(s, k) ==> or_inserted(s, k, d) == inserted(s, k, d),
        inserted(or_inserted(s, k, d), k, w) == inserted(s, k, w),
{
    if has_key(s, k) {
    } else {
        lemma_absent_push(s, k, d);
        lemma_absent_push(s, k, w);
        let t = s.push((k, d));
        assert(inserted(t, k, w) =~= s.push((k, w)));
    }
}

/// After a clear, an insertion places its key at position zero.
pub proof fn lemma_insert_after_clear<K, V>(k: K, v: V)
    ensures
        inserted(Seq::<(K, V)>::empty(), k, v) == seq![(k, v)],
        position_of(inserted(Seq::<(K, V)>::empty(), k, v), k) == 0,
{
    lemma_absent_push(Seq::<(K, V)>::empty(), k, v);
    assert(Seq::<(K, V)>::empty().push((k, v)) =~= seq![(k, v)]);
}

/// Building a map from pairs whose keys are distinct keeps the pairs, in
/// their order.
pub proof fn lemma_round_trip<K, V>(items: Seq<(K, V)>)
    requires
        keys_distinct(items),
    ensures
        inserted_all(Seq::empty(), items) == items,
    decreases items.len(),
{
    if items.len() > 0 {
        let rest = items.drop_last();
        assert(keys_distinct(rest));
        lemma_round_trip(rest);
        let k = items.last().0;
        assert(!has_key(rest, k)) by {
            if has_key(rest, k) {
                let i = position_of(rest, k);
                assert(items[i].0 == items[items.len() - 1].0);
            }
        }
        lemma_absent_push(rest, k, items.last().1);
        assert(rest.push(items.last()) =~= items);
    }
}

/// Inserting an element equal to one already present keeps the size of the
/// set and the element's position, and stores the new instance there.
pub proof fn lemma_set_dedup<T>(s: Seq<T>, x: T)
    requires
        s.contains(x),
    ensures
        set_inserted(s, x).len() == s.len(),
        set_inserted(s, x)[position_in(s, x)] == x,
        set_inserted(s, x) == s,
{
    assert(set_inserted(s, x) =~= s);
}

} // verus!
