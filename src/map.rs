//! An ordered map that keeps the insertion order of its entries.
use crate::SlotIndex;
use std::collections::BTreeMap;
use vstd::laws_cmp::obeys_cmp;
use vstd::prelude::*;

verus! {

/// A key-value pair stored at one position of the slot storage.
#[derive(Debug, Clone, PartialEq, Eq, PartialOrd, Ord)]
pub struct Slot<K, V> {
    pub(crate) key: K,
    pub(crate) value: V,
}

impl<K, V> Slot<K, V> {
    /// The key and the value of the slot.
    pub closed spec fn pair(self) -> (K, V) {
        (self.key, self.value)
    }

    /// Creates a new slot from the given key and value.
    pub(crate) fn new(key: K, value: V) -> (r: Self)
        ensures
            r.key == key,
            r.value == value,
    {
        Slot { key, value }
    }

    /// Returns the slot as a pair of references to its key and value.
    pub(crate) fn as_pair(&self) -> (r: (&K, &V))
        ensures
            *r.0 == self.key,
            *r.1 == self.value,
    {
        (&self.key, &self.value)
    }

    /// Returns the slot as a reference to its key and a mutable reference to its value.
    pub(crate) fn as_pair_mut(&mut self) -> (r: (&K, &mut V))
        ensures
            *r.0 == old(self).key,
            *r.1 == old(self).value,
            *final(self) == (Slot { key: old(self).key, value: *final(r.1) }),
    {
        (&self.key, &mut self.value)
    }
}

/// Keys form a total order, and a clone of a key is equal to it.
pub open spec fn key_laws<K: Ord + Clone>() -> bool {
    &&& obeys_cmp::<K>()
    &&& forall|a: K, b: K| #[trigger] call_ensures(K::clone, (&a,), b) ==> a == b
}

/// Whether some entry of `s` has the key `k`.
pub open spec fn has_key<K, V>(s: Seq<(K, V)>, k: K) -> bool {
    exists|i: int| 0 <= i < s.len() && s[i].0 == k
}

/// Whether no two entries of `s` share a key.
pub open spec fn keys_distinct<K, V>(s: Seq<(K, V)>) -> bool {
    forall|i: int, j: int|
        0 <= i < s.len() && 0 <= j < s.len() && #[trigger] s[i].0 == #[trigger] s[j].0 ==> i == j
}

/// The keys of the entries of `s`, in order.
pub open spec fn keys<K, V>(s: Seq<(K, V)>) -> Seq<K> {
    s.map_values(|p: (K, V)| p.0)
}

/// The position of the entry with key `k` in `s`.
pub open spec fn position_of<K, V>(s: Seq<(K, V)>, k: K) -> int {
    choose|i: int| 0 <= i < s.len() && s[i].0 == k
}

/// The value stored for key `k` in `s`, if any.
pub open spec fn value_of<K, V>(s: Seq<(K, V)>, k: K) -> Option<V> {
    if has_key(s, k) {
        Some(s[position_of(s, k)].1)
    } else {
        None
    }
}

/// The entries of `s` after inserting `v` under `k`: an entry with that key is
/// overwritten where it stands, otherwise the pair is appended.
pub open spec fn inserted<K, V>(s: Seq<(K, V)>, k: K, v: V) -> Seq<(K, V)> {
    if has_key(s, k) {
        s.update(position_of(s, k), (k, v))
    } else {
        s.push((k, v))
    }
}

/// The entries of `s` after inserting each pair of `items` in turn.
pub open spec fn inserted_all<K, V>(s: Seq<(K, V)>, items: Seq<(K, V)>) -> Seq<(K, V)>
    decreases items.len(),
{
    if items.len() == 0 {
        s
    } else {
        let rest = inserted_all(s, items.drop_last());
        inserted(rest, items.last().0, items.last().1)
    }
}

/// An insertion-ordered map.
#[derive(Debug, Clone, PartialEq, Eq, PartialOrd, Ord)]
pub struct IndexMap<K, V> {
    key2slot: BTreeMap<K, SlotIndex>,
    slots: Vec<Slot<K, V>>,
}

/// The key-value pairs of a run of slots, in order.
pub open spec fn pairs<K, V>(s: Seq<Slot<K, V>>) -> Seq<(K, V)> {
    s.map_values(|x: Slot<K, V>| x.pair())
}

impl<K, V> View for IndexMap<K, V> {
    type V = Seq<(K, V)>;

    closed spec fn view(&self) -> Seq<(K, V)> {
        pairs(self.slots@)
    }
}

impl<K, V> Default for IndexMap<K, V> {
    /// Makes a new, empty map.
    fn default() -> (r: Self)
        ensures
            r.wf(),
            r@ == Seq::<(K, V)>::empty(),
    {
        Self::new()
    }
}

impl<K, V> IndexMap<K, V> {
    /// The index and the slot storage agree: they have the same size, every
    /// slot is indexed under its own key at its own position, and every
    /// indexed key names such a slot.
    pub closed spec fn wf(&self) -> bool {
        &&& self.key2slot@.len() == self.slots@.len()
        &&& forall|i: int|
            0 <= i < self.slots@.len() ==> {
                &&& #[trigger] self.key2slot@.contains_key(self.slots@[i].key)
                &&& self.key2slot@[self.slots@[i].key].0 == i
            }
        &&& forall|k: K|
            #[trigger] self.key2slot@.contains_key(k) ==> {
                &&& self.key2slot@[k].0 < self.slots@.len()
                &&& self.slots@[self.key2slot@[k].0 as int].key == k
            }
    }

    proof fn lemma_wf_view(&self)
        requires
            self.wf(),
        ensures
            keys_distinct(self@),
            self@.len() == self.slots@.len(),
            forall|k: K| #[trigger] has_key(self@, k) <==> self.key2slot@.contains_key(k),
            forall|k: K|
                #[trigger] has_key(self@, k) ==> position_of(self@, k) == self.key2slot@[k].0,
            forall|i: int|
                0 <= i < self@.len() ==> has_key(self@, #[trigger] self@[i].0) && position_of(
                    self@,
                    self@[i].0,
                ) == i,
    {
        assert forall|k: K| #[trigger] has_key(self@, k) implies self.key2slot@.contains_key(k) && position_of(self@, k) == self.key2slot@[k].0 by {
            let i = position_of(self@, k);
            assert(self@[i].0 == self.slots@[i].key);
        }
        assert forall|k: K| self.key2slot@.contains_key(k) implies #[trigger] has_key(self@, k) by {
            let i = self.key2slot@[k].0 as int;
            assert(self@[i].0 == k);
        }
        assert forall|i: int, j: int|
            0 <= i < self@.len() && 0 <= j < self@.len() && #[trigger] self@[i].0 == #[trigger] self@[j].0 implies i == j by {
            assert(self@[i].0 == self.slots@[i].key);
            assert(self@[j].0 == self.slots@[j].key);
            assert(self.key2slot@.contains_key(self.slots@[i].key));
            assert(self.key2slot@.contains_key(self.slots@[j].key));
        }
        assert forall|i: int| 0 <= i < self@.len() implies has_key(self@, #[trigger] self@[i].0)
            && position_of(self@, self@[i].0) == i by {
            assert(self@[i].0 == self.slots@[i].key);
            assert(self.key2slot@.contains_key(self.slots@[i].key));
        }
    }

    /// Keys of a well-formed map are distinct, and each resolves to its slot.
    pub(crate) proof fn lemma_wf_keys(&self)
        requires
            self.wf(),
        ensures
            keys_distinct(self@),
            forall|i: int|
                0 <= i < self@.len() ==> has_key(self@, #[trigger] self@[i].0) && position_of(
                    self@,
                    self@[i].0,
                ) == i,
    {
        self.lemma_wf_view();
    }

    /// Makes a new, empty map. Allocates nothing on its own.
    pub fn new() -> (r: Self)
        ensures
            r.wf(),
            r@ == Seq::<(K, V)>::empty(),
    {
        let r = IndexMap { key2slot: BTreeMap::new(), slots: Vec::new() };
        assert(r@ =~= Seq::<(K, V)>::empty());
        r
    }

    /// Returns the number of entries in the map.
    pub fn len(&self) -> (r: usize)
        ensures
            r == self@.len(),
    {
        self.slots.len()
    }

    /// Returns `true` if the map holds no entries.
    pub fn is_empty(&self) -> (r: bool)
        ensures
            r == (self@.len() == 0),
    {
        self.len() == 0
    }

    /// Returns `true` if the map holds an entry for the given key.
    pub fn contains_key(&self, key: &K) -> (r: bool)
        where
            K: Ord,
        requires
            self.wf(),
            obeys_cmp::<K>(),
        ensures
            r == has_key(self@, *key),
    {
        proof {
            self.lemma_wf_view();
        }
        self.key2slot.contains_key(key)
    }

    /// Returns a reference to the value stored for the given key.
    pub fn get(&self, key: &K) -> (r: Option<&V>)
        where
            K: Ord,
        requires
            self.wf(),
            obeys_cmp::<K>(),
        ensures
            match r {
                Some(v) => value_of(self@, *key) == Some(*v),
                None => value_of(self@, *key) is None,
            },
    {
        proof {
            self.lemma_wf_view();
        }
        match self.key2slot.get(key) {
            Some(slot) => Some(&self.slots[slot.index()].value),
            None => None,
        }
    }

    /// Inserts a key-value pair. A new key is appended at the end; a key that
    /// is present keeps its position, its slot is overwritten and the value it
    /// held is returned.
    pub fn insert(&mut self, key: K, value: V) -> (r: Option<V>)
        where
            K: Ord + Clone,
        requires
            old(self).wf(),
            key_laws::<K>(),
        ensures
            final(self).wf(),
            final(self)@ == inserted(old(self)@, key, value),
            r == value_of(old(self)@, key),
    {
        proof {
            self.lemma_wf_view();
        }
        match self.key2slot.get(&key) {
            Some(slot) => {
                let index = slot.index();
                let mut slot = Slot::new(key, value);
                std::mem::swap(&mut self.slots[index], &mut slot);
                proof {
                    assert(self@ =~= inserted(old(self)@, key, value));
                }
                Some(slot.value)
            },
            None => {
                let new_slot = self.slots.len();
                let index_key = key.clone();
                self.key2slot.insert(index_key, SlotIndex(new_slot));
                self.slots.push(Slot::new(key, value));
                proof {
                    assert(self@ =~= inserted(old(self)@, key, value));
                }
                None
            },
        }
    }

    /// Clears the map, removing all entries.
    pub fn clear(&mut self)
        ensures
            final(self).wf(),
            final(self)@ == Seq::<(K, V)>::empty(),
    {
        self.key2slot.clear();
        self.slots.clear();
        assert(self@ =~= Seq::<(K, V)>::empty());
    }
}

/// The entries of `s` once `k` is sure to be present: unchanged where `k`
/// has an entry, otherwise with `(k, d)` appended.
pub open spec fn or_inserted<K, V>(s: Seq<(K, V)>, k: K, d: V) -> Seq<(K, V)> {
    if has_key(s, k) {
        s
    } else {
        s.push((k, d))
    }
}

impl<K, V> IndexMap<K, V> {
    /// Classifies `key` against the index: the entry is vacant when no slot
    /// holds the key and occupied, at that slot's position, when one does.
    pub fn entry(&mut self, key: K) -> (e: Entry<'_, K, V>)
        where
            K: Ord + Clone,
        requires
            old(self).wf(),
            key_laws::<K>(),
        ensures
            e.wf(),
            e.key_spec() == key,
            e.map() == *old(self),
            *final(e.map_ref()) == *final(self),
            e is Occupied <==> has_key(old(self)@, key),
    {
        proof {
            self.lemma_wf_view();
        }
        let found = match self.key2slot.get(&key) {
            Some(slot) => Some(slot.index()),
            None => None,
        };
        match found {
            Some(index) => Entry::Occupied(OccupiedEntry { index, map: self }),
            None => Entry::Vacant(VacantEntry { key, map: self }),
        }
    }
}

impl<'a, K: Ord, V> std::ops::Index<&'a K> for IndexMap<K, V> {
    type Output = V;

    /// Returns a reference to the value stored for `key`, which must be present.
    fn index(&self, key: &'a K) -> (r: &V)
        ensures
            Some(*r) == value_of(self@, *key),
    {
        self.get(key).unwrap()
    }
}

impl<'a, K: Ord, V> vstd::std_specs::core::IndexSpecImpl<&'a K> for IndexMap<K, V> {
    /// Indexing is defined only for keys that the map holds.
    open spec fn index_req(&self, key: &&'a K) -> bool {
        &&& self.wf()
        &&& obeys_cmp::<K>()
        &&& has_key(self@, **key)
    }
}

/// A view into a single entry of a map, which is either vacant or occupied.
pub enum Entry<'a, K, V> {
    /// A vacant entry.
    Vacant(VacantEntry<'a, K, V>),
    /// An occupied entry.
    Occupied(OccupiedEntry<'a, K, V>),
}

/// A view into a vacant entry of an [`IndexMap`].
pub struct VacantEntry<'a, K, V> {
    key: K,
    map: &'a mut IndexMap<K, V>,
}

/// A view into an occupied entry of an [`IndexMap`].
pub struct OccupiedEntry<'a, K, V> {
    index: usize,
    map: &'a mut IndexMap<K, V>,
}

impl<'a, K, V> VacantEntry<'a, K, V> {
    /// The key that an insertion through this entry would use.
    pub closed spec fn key_spec(self) -> K {
        self.key
    }

    /// The map as it stands while the entry is held.
    pub open spec fn map(self) -> IndexMap<K, V> {
        *self.map_ref()
    }

    /// The exclusive borrow of the map that the entry holds.
    pub closed spec fn map_ref(self) -> &'a mut IndexMap<K, V> {
        self.map
    }

    /// The map is well formed and does not hold the key.
    pub open spec fn wf(self) -> bool {
        &&& self.map().wf()
        &&& !has_key(self.map()@, self.key_spec())
    }
}

impl<'a, K, V> OccupiedEntry<'a, K, V> {
    /// The position of the entry's slot.
    pub closed spec fn position(self) -> int {
        self.index as int
    }

    /// The map as it stands while the entry is held.
    pub open spec fn map(self) -> IndexMap<K, V> {
        *self.map_ref()
    }

    /// The exclusive borrow of the map that the entry holds.
    pub closed spec fn map_ref(self) -> &'a mut IndexMap<K, V> {
        self.map
    }

    /// The key of the entry's slot.
    pub open spec fn key_spec(self) -> K {
        self.map()@[self.position()].0
    }

    /// The map is well formed and the position names one of its slots.
    pub open spec fn wf(self) -> bool {
        &&& self.map().wf()
        &&& 0 <= self.position() < self.map()@.len()
    }
}

impl<'a, K, V> VacantEntry<'a, K, V> {
    /// Gets a reference to the key that an insertion through this entry would use.
    pub fn key(&self) -> (r: &K)
        ensures
            *r == self.key_spec(),
    {
        &self.key
    }

    /// Takes ownership of the key without inserting anything.
    pub fn into_key(self) -> (r: K)
        ensures
            r == self.key_spec(),
            *final(self.map_ref()) == self.map(),
    {
        self.key
    }

    /// Appends a slot for the entry's key holding `value`, and returns a
    /// mutable reference to the value just stored.
    pub fn insert(self, value: V) -> (r: &'a mut V)
        where
            K: Ord + Clone,
        requires
            self.wf(),
            key_laws::<K>(),
        ensures
            *r == value,
            (*final(self.map_ref())).wf(),
            (*final(self.map_ref()))@ == self.map()@.push((self.key_spec(), *final(r))),
    {
        let map = self.map;
        let key = self.key;
        proof {
            map.lemma_wf_view();
        }
        let index = map.slots.len();
        map.key2slot.insert(key.clone(), SlotIndex(index));
        map.slots.push(Slot::new(key, value));
        assert(map.wf());
        &mut map.slots[index].value
    }
}

impl<'a, K, V> OccupiedEntry<'a, K, V> {
    /// Gets a reference to the key of the entry's slot.
    pub fn key(&self) -> (r: &K)
        requires
            self.wf(),
        ensures
            *r == self.key_spec(),
    {
        &self.map.slots[self.index].key
    }

    /// Gets a reference to the value of the entry's slot.
    pub fn get(&self) -> (r: &V)
        requires
            self.wf(),
        ensures
            *r == self.map()@[self.position()].1,
    {
        &self.map.slots[self.index].value
    }

    /// Gets a mutable reference to the value of the entry's slot, for as long
    /// as the entry itself is borrowed.
    pub fn get_mut(&mut self) -> (r: &mut V)
        requires
            old(self).wf(),
        ensures
            *r == old(self).map()@[old(self).position()].1,
            final(self).position() == old(self).position(),
            final(self).map().wf(),
            final(self).map()@ == old(self).map()@.update(
                old(self).position(),
                (old(self).key_spec(), *final(r)),
            ),
            *final(final(self).map_ref()) == *final(old(self).map_ref()),
    {
        &mut self.map.slots[self.index].value
    }

    /// Converts the entry into a mutable reference to the value of its slot,
    /// which lives as long as the borrow of the map.
    pub fn into_mut(self) -> (r: &'a mut V)
        requires
            self.wf(),
        ensures
            *r == self.map()@[self.position()].1,
            (*final(self.map_ref())).wf(),
            (*final(self.map_ref()))@ == self.map()@.update(
                self.position(),
                (self.key_spec(), *final(r)),
            ),
    {
        let map = self.map;
        &mut map.slots[self.index].value
    }

    /// Overwrites the entry's slot with its key and `value`, and returns the
    /// value it held.
    pub fn insert(&mut self, value: V) -> (r: V)
        where
            K: Ord + Clone,
        requires
            old(self).wf(),
            key_laws::<K>(),
        ensures
            r == old(self).map()@[old(self).position()].1,
            final(self).position() == old(self).position(),
            final(self).map().wf(),
            final(self).map()@ == old(self).map()@.update(
                old(self).position(),
                (old(self).key_spec(), value),
            ),
            *final(final(self).map_ref()) == *final(old(self).map_ref()),
    {
        let key = self.map.slots[self.index].key.clone();
        let mut slot = Slot::new(key, value);
        std::mem::swap(&mut self.map.slots[self.index], &mut slot);
        slot.value
    }
}

impl<'a, K, V> Entry<'a, K, V> {
    /// The key the entry was made for.
    pub open spec fn key_spec(self) -> K {
        match self {
            Entry::Vacant(v) => v.key_spec(),
            Entry::Occupied(o) => o.key_spec(),
        }
    }

    /// The map as it stands while the entry is held.
    pub open spec fn map(self) -> IndexMap<K, V> {
        match self {
            Entry::Vacant(v) => v.map(),
            Entry::Occupied(o) => o.map(),
        }
    }

    /// The exclusive borrow of the map that the entry holds.
    pub open spec fn map_ref(self) -> &'a mut IndexMap<K, V> {
        match self {
            Entry::Vacant(v) => v.map_ref(),
            Entry::Occupied(o) => o.map_ref(),
        }
    }

    /// The value that the entry's slot holds, if it is occupied.
    pub open spec fn value(self) -> Option<V> {
        value_of(self.map()@, self.key_spec())
    }

    /// The entry's own well-formedness.
    pub open spec fn wf(self) -> bool {
        match self {
            Entry::Vacant(v) => v.wf(),
            Entry::Occupied(o) => o.wf() && o.position() == position_of(o.map()@, o.key_spec()),
        }
    }
}

impl<'a, K: Ord, V> Entry<'a, K, V> {
    /// Returns a mutable reference to the value of the entry, after storing
    /// `default` under the entry's key if it was vacant.
    pub fn or_insert(self, default: V) -> (r: &'a mut V)
        where
            K: Clone,
        requires
            self.wf(),
            key_laws::<K>(),
        ensures
            *r == (match self.value() {
                Some(v) => v,
                None => default,
            }),
            (*final(self.map_ref())).wf(),
            (*final(self.map_ref()))@ == inserted(self.map()@, self.key_spec(), *final(r)),
    {
        proof {
            self.lemma_wf_value();
        }
        match self {
            Entry::Occupied(entry) => entry.into_mut(),
            Entry::Vacant(entry) => entry.insert(default),
        }
    }

    /// Returns a mutable reference to the value of the entry, after storing
    /// the result of `default` under the entry's key if it was vacant.
    pub fn or_insert_with<F: FnOnce() -> V>(self, default: F) -> (r: &'a mut V)
        where
            K: Clone,
        requires
            self.wf(),
            key_laws::<K>(),
            self is Vacant ==> default.requires(()),
        ensures
            self is Occupied ==> Some(*r) == self.value(),
            self is Vacant ==> default.ensures((), *r),
            (*final(self.map_ref())).wf(),
            (*final(self.map_ref()))@ == inserted(self.map()@, self.key_spec(), *final(r)),
    {
        proof {
            self.lemma_wf_value();
        }
        match self {
            Entry::Occupied(entry) => entry.into_mut(),
            Entry::Vacant(entry) => entry.insert(default()),
        }
    }

    /// Returns a mutable reference to the value of the entry, after storing
    /// the result of `default`, applied to the entry's key, if it was vacant.
    pub fn or_insert_with_key<F: FnOnce(&K) -> V>(self, default: F) -> (r: &'a mut V)
        where
            K: Clone,
        requires
            self.wf(),
            key_laws::<K>(),
            self is Vacant ==> default.requires((&self.key_spec(),)),
        ensures
            self is Occupied ==> Some(*r) == self.value(),
            self is Vacant ==> default.ensures((&self.key_spec(),), *r),
            (*final(self.map_ref())).wf(),
            (*final(self.map_ref()))@ == inserted(self.map()@, self.key_spec(), *final(r)),
    {
        proof {
            self.lemma_wf_value();
        }
        match self {
            Entry::Occupied(entry) => entry.into_mut(),
            Entry::Vacant(entry) => {
                let value = default(entry.key());
                entry.insert(value)
            },
        }
    }

    /// Applies `f` to the value of an occupied entry, in place; a vacant entry
    /// is handed back as it is.
    pub fn and_modify<F: FnOnce(&mut V)>(self, f: F) -> (r: Self)
        requires
            self.wf(),
            self is Occupied ==> forall|m: &mut V| *m == self.value()->0 ==> f.requires((m,)),
        ensures
            r.wf(),
            r.key_spec() == self.key_spec(),
            r is Occupied <==> self is Occupied,
            *final(r.map_ref()) == *final(self.map_ref()),
            self is Vacant ==> r.map() == self.map(),
            self is Occupied ==> exists|m: &mut V|
                *m == self.value()->0 && f.ensures((m,), ()) && r.map()@ == inserted(
                    self.map()@,
                    self.key_spec(),
                    *final(m),
                ),
    {
        proof {
            self.lemma_wf_value();
        }
        match self {
            Entry::Occupied(mut entry) => {
                let m = entry.get_mut();
                f(m);
                proof {
                    entry.map().lemma_wf_view();
                    assert(entry.map()@ =~= inserted(self.map()@, self.key_spec(), *final(m)));
                }
                Entry::Occupied(entry)
            },
            Entry::Vacant(entry) => Entry::Vacant(entry),
        }
    }

    /// Returns a reference to the entry's key.
    pub fn key(&self) -> (r: &K)
        requires
            self.wf(),
        ensures
            *r == self.key_spec(),
    {
        match self {
            Entry::Occupied(entry) => entry.key(),
            Entry::Vacant(entry) => entry.key(),
        }
    }
}

impl<'a, K, V> Entry<'a, K, V>
    where
        K: Ord + Clone,
        V: Default,
 {
    /// Returns a mutable reference to the value of the entry, after storing
    /// the default value under the entry's key if it was vacant.
    pub fn or_default(self) -> (r: &'a mut V)
        requires
            self.wf(),
            key_laws::<K>(),
        ensures
            self is Occupied ==> Some(*r) == self.value(),
            self is Vacant ==> call_ensures(V::default, (), *r),
            (*final(self.map_ref())).wf(),
            (*final(self.map_ref()))@ == inserted(self.map()@, self.key_spec(), *final(r)),
    {
        proof {
            self.lemma_wf_value();
        }
        match self {
            Entry::Occupied(entry) => entry.into_mut(),
            Entry::Vacant(entry) => entry.insert(V::default()),
        }
    }
}

impl<'a, K, V> Entry<'a, K, V> {
    proof fn lemma_wf_value(self)
        requires
            self.wf(),
        ensures
            self.value() == (match self {
                Entry::Occupied(o) => Some(o.map()@[o.position()].1),
                Entry::Vacant(_) => None::<V>,
            }),
            has_key(self.map()@, self.key_spec()) <==> self is Occupied,
    {
        self.map().lemma_wf_view();
        let s = self.map()@;
        let k = self.key_spec();
        if let Entry::Occupied(o) = self {
            assert(s[o.position()].0 == k);
        }
    }
}

impl<K, V> IndexMap<K, V> {
    /// Inserts each pair of `items` in turn; a later pair for a key that is
    /// already present overwrites its value.
    pub fn extend(&mut self, items: Vec<(K, V)>)
        where
            K: Ord + Clone,
        requires
            old(self).wf(),
            key_laws::<K>(),
        ensures
            final(self).wf(),
            final(self)@ == inserted_all(old(self)@, items@),
    {
        let ghost all = items@;
        let ghost start = self@;
        let mut items = items;
        let mut reversed: Vec<(K, V)> = Vec::new();
        while items.len() > 0
            invariant
                items@.len() + reversed@.len() == all.len(),
                items@ == all.subrange(0, items@.len() as int),
                forall|j: int|
                    0 <= j < reversed@.len() ==> #[trigger] reversed@[j] == all[all.len() - 1 - j],
            decreases items@.len(),
        {
            let item = items.pop().unwrap();
            reversed.push(item);
        }
        while reversed.len() > 0
            invariant
                self.wf(),
                key_laws::<K>(),
                reversed@.len() <= all.len(),
                self@ == inserted_all(start, all.subrange(0, all.len() - reversed@.len())),
                forall|j: int|
                    0 <= j < reversed@.len() ==> #[trigger] reversed@[j] == all[all.len() - 1 - j],
            decreases reversed@.len(),
        {
            let (key, value) = reversed.pop().unwrap();
            let ghost done = all.subrange(0, all.len() - reversed@.len());
            assert(done.drop_last() =~= all.subrange(0, all.len() - reversed@.len() - 1));
            self.insert(key, value);
        }
        assert(all.subrange(0, all.len() as int) =~= all);
    }

    /// Builds a map by inserting each pair of `items` in turn.
    pub fn from_vec(items: Vec<(K, V)>) -> (r: Self)
        where
            K: Ord + Clone,
        requires
            key_laws::<K>(),
        ensures
            r.wf(),
            r@ == inserted_all(Seq::empty(), items@),
    {
        let mut map = IndexMap::new();
        map.extend(items);
        map
    }

    /// Gets an iterator over the entries of the map, in slot order.
    pub fn iter(&self) -> (r: Iter<'_, K, V>)
        ensures
            r@ == self@,
    {
        Iter { slots: self.slots.as_slice() }
    }

    /// Gets an iterator over the entries of the map, in slot order, that
    /// yields mutable references to the values.
    pub fn iter_mut(&mut self) -> (r: IterMut<'_, K, V>)
        ensures
            r@ == old(self)@,
            (*final(self))@ == pairs(final(r.slots_ref())@),
            old(self).wf() && keys(final(self)@) == keys(old(self)@) ==> final(self).wf(),
    {
        proof {
            assert forall|f: IndexMap<K, V>|
                old(self).wf() && f.key2slot == old(self).key2slot && keys(f@) == keys(old(self)@)
                implies #[trigger] f.wf() by {
                let o = *old(self);
                assert(f.slots@.len() == keys(f@).len());
                assert(o.slots@.len() == keys(o@).len());
                assert forall|i: int| 0 <= i < f.slots@.len() implies #[trigger] f.slots@[i].key
                    == o.slots@[i].key by {
                    assert(keys(f@)[i] == f@[i].0);
                    assert(keys(o@)[i] == o@[i].0);
                    assert(f@[i] == f.slots@[i].pair());
                    assert(o@[i] == o.slots@[i].pair());
                }
                assert forall|i: int| 0 <= i < f.slots@.len() implies #[trigger] f.key2slot@.contains_key(f.slots@[i].key)
                    && f.key2slot@[f.slots@[i].key].0 == i by {
                    assert(o.key2slot@.contains_key(o.slots@[i].key));
                }
            }
        }
        IterMut { slots: self.slots.as_mut_slice() }
    }
}

/// An iterator over the entries of an [`IndexMap`], front to back or back to
/// front.
#[derive(Debug, Clone)]
pub struct Iter<'a, K, V> {
    slots: &'a [Slot<K, V>],
}

impl<'a, K, V> View for Iter<'a, K, V> {
    type V = Seq<(K, V)>;

    /// The entries not yet yielded from either end.
    closed spec fn view(&self) -> Seq<(K, V)> {
        pairs(self.slots@)
    }
}

impl<'a, K, V> Iter<'a, K, V> {
    /// Yields the first entry not yet yielded.
    pub fn next(&mut self) -> (r: Option<(&'a K, &'a V)>)
        ensures
            old(self)@.len() == 0 ==> r is None && final(self)@ == old(self)@,
            old(self)@.len() > 0 ==> r is Some && *(r->0).0 == old(self)@[0].0 && *(r->0).1
                == old(self)@[0].1 && final(self)@ == old(self)@.drop_first(),
    {
        if self.slots.len() == 0 {
            return None;
        }
        let (first, rest) = self.slots.split_at(1);
        self.slots = rest;
        assert(final(self)@ =~= old(self)@.drop_first());
        Some(first[0].as_pair())
    }

    /// Yields the last entry not yet yielded.
    pub fn next_back(&mut self) -> (r: Option<(&'a K, &'a V)>)
        ensures
            old(self)@.len() == 0 ==> r is None && final(self)@ == old(self)@,
            old(self)@.len() > 0 ==> r is Some && *(r->0).0 == old(self)@.last().0 && *(r->0).1
                == old(self)@.last().1 && final(self)@ == old(self)@.drop_last(),
    {
        let n = self.slots.len();
        if n == 0 {
            return None;
        }
        let (rest, last) = self.slots.split_at(n - 1);
        self.slots = rest;
        assert(final(self)@ =~= old(self)@.drop_last());
        Some(last[0].as_pair())
    }

    /// Returns the number of entries not yet yielded.
    pub fn len(&self) -> (r: usize)
        ensures
            r == self@.len(),
    {
        self.slots.len()
    }

    /// Returns the exact bounds on the number of entries not yet yielded.
    pub fn size_hint(&self) -> (r: (usize, Option<usize>))
        ensures
            r.0 == self@.len(),
            r.1 == Some(self@.len() as usize),
    {
        let n = self.slots.len();
        (n, Some(n))
    }

    /// Consumes the iterator and returns the number of entries not yet yielded.
    pub fn count(self) -> (r: usize)
        ensures
            r == self@.len(),
    {
        self.slots.len()
    }
}

/// An iterator over the entries of an [`IndexMap`] that yields mutable
/// references to the values, front to back or back to front.
#[derive(Debug)]
pub struct IterMut<'a, K, V> {
    slots: &'a mut [Slot<K, V>],
}

impl<'a, K, V> View for IterMut<'a, K, V> {
    type V = Seq<(K, V)>;

    /// The entries not yet yielded from either end.
    closed spec fn view(&self) -> Seq<(K, V)> {
        pairs(self.slots@)
    }
}

impl<'a, K, V> IterMut<'a, K, V> {
    /// The exclusive borrow of the slots not yet yielded.
    pub closed spec fn slots_ref(self) -> &'a mut [Slot<K, V>] {
        self.slots
    }

    /// Yields the first entry not yet yielded.
    pub fn next(&mut self) -> (r: Option<(&'a K, &'a mut V)>)
        ensures
            old(self)@.len() == 0 ==> r is None && final(self)@ == old(self)@
                && final(final(self).slots_ref())@ == final(old(self).slots_ref())@,
            old(self)@.len() > 0 ==> r is Some && *(r->0).0 == old(self)@[0].0 && *(r->0).1
                == old(self)@[0].1 && final(self)@ == old(self)@.drop_first()
                && pairs(final(old(self).slots_ref())@) == seq![(old(self)@[0].0, *final((r->0).1))]
                + pairs(final(final(self).slots_ref())@),
    {
        let mut slots: &'a mut [Slot<K, V>] = &mut [];
        std::mem::swap(&mut self.slots, &mut slots);
        if slots.len() == 0 {
            return None;
        }
        let (first, rest) = slots.split_at_mut(1);
        self.slots = rest;
        match first.first_mut() {
            Some(slot) => Some(slot.as_pair_mut()),
            None => None,
        }
    }

    /// Yields the last entry not yet yielded.
    pub fn next_back(&mut self) -> (r: Option<(&'a K, &'a mut V)>)
        ensures
            old(self)@.len() == 0 ==> r is None && final(self)@ == old(self)@
                && final(final(self).slots_ref())@ == final(old(self).slots_ref())@,
            old(self)@.len() > 0 ==> r is Some && *(r->0).0 == old(self)@.last().0 && *(r->0).1
                == old(self)@.last().1 && final(self)@ == old(self)@.drop_last()
                && pairs(final(old(self).slots_ref())@) == pairs(
                final(final(self).slots_ref())@,
            ).push((old(self)@.last().0, *final((r->0).1))),
    {
        let mut slots: &'a mut [Slot<K, V>] = &mut [];
        std::mem::swap(&mut self.slots, &mut slots);
        let n = slots.len();
        if n == 0 {
            return None;
        }
        let (rest, last) = slots.split_at_mut(n - 1);
        self.slots = rest;
        match last.first_mut() {
            Some(slot) => Some(slot.as_pair_mut()),
            None => None,
        }
    }

    /// Returns the number of entries not yet yielded.
    pub fn len(&self) -> (r: usize)
        ensures
            r == self@.len(),
    {
        self.slots.len()
    }

    /// Returns the exact bounds on the number of entries not yet yielded.
    pub fn size_hint(&self) -> (r: (usize, Option<usize>))
        ensures
            r.0 == self@.len(),
            r.1 == Some(self@.len() as usize),
    {
        let n = self.slots.len();
        (n, Some(n))
    }

    /// Consumes the iterator and returns the number of entries not yet yielded.
    pub fn count(self) -> (r: usize)
        ensures
            r == self@.len(),
    {
        self.slots.len()
    }
}

} // verus!
