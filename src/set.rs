//! An ordered set that keeps the insertion order of its elements.
use crate::map::key_laws;
use crate::SlotIndex;
use std::collections::BTreeMap;
use std::collections::VecDeque;
use vstd::laws_cmp::obeys_cmp;
use vstd::prelude::*;

verus! {

/// The position of the element `x` in `s`.
pub open spec fn position_in<T>(s: Seq<T>, x: T) -> int {
    choose|i: int| 0 <= i < s.len() && s[i] == x
}

/// The elements of `s` after inserting `x`: an element equal to it is
/// overwritten where it stands, otherwise `x` is appended.
pub open spec fn set_inserted<T>(s: Seq<T>, x: T) -> Seq<T> {
    if s.contains(x) {
        s.update(position_in(s, x), x)
    } else {
        s.push(x)
    }
}

/// The elements of `s` after inserting each element of `items` in turn.
pub open spec fn set_inserted_all<T>(s: Seq<T>, items: Seq<T>) -> Seq<T>
    decreases items.len(),
{
    if items.len() == 0 {
        s
    } else {
        set_inserted(set_inserted_all(s, items.drop_last()), items.last())
    }
}

/// An insertion-ordered set.
#[derive(Debug, Clone, PartialEq, Eq, PartialOrd, Ord)]
pub struct IndexSet<T> {
    key2slot: BTreeMap<T, SlotIndex>,
    slots: Vec<T>,
}

impl<T> View for IndexSet<T> {
    type V = Seq<T>;

    closed spec fn view(&self) -> Seq<T> {
        self.slots@
    }
}

impl<T> Default for IndexSet<T> {
    /// Makes a new, empty set.
    fn default() -> (r: Self)
        ensures
            r.wf(),
            r@ == Seq::<T>::empty(),
    {
        Self::new()
    }
}

impl<T> IndexSet<T> {
    /// The index and the slot storage agree: they have the same size, every
    /// element is indexed at its own position, and every indexed element
    /// names such a slot.
    pub closed spec fn wf(&self) -> bool {
        &&& self.key2slot@.len() == self.slots@.len()
        &&& forall|i: int|
            0 <= i < self.slots@.len() ==> {
                &&& #[trigger] self.key2slot@.contains_key(self.slots@[i])
                &&& self.key2slot@[self.slots@[i]].0 == i
            }
        &&& forall|x: T|
            #[trigger] self.key2slot@.contains_key(x) ==> {
                &&& self.key2slot@[x].0 < self.slots@.len()
                &&& self.slots@[self.key2slot@[x].0 as int] == x
            }
    }

    proof fn lemma_wf_view(&self)
        requires
            self.wf(),
        ensures
            self@.no_duplicates(),
            forall|x: T| #[trigger] self@.contains(x) <==> self.key2slot@.contains_key(x),
            forall|x: T| #[trigger] self@.contains(x) ==> position_in(self@, x) == self.key2slot@[x].0,
    {
        assert forall|x: T| #[trigger] self@.contains(x) implies self.key2slot@.contains_key(x)
            && position_in(self@, x) == self.key2slot@[x].0 by {
            let i = position_in(self@, x);
            assert(self.key2slot@.contains_key(self.slots@[i]));
        }
        assert forall|x: T| self.key2slot@.contains_key(x) implies #[trigger] self@.contains(x) by {
            let i = self.key2slot@[x].0 as int;
            assert(self@[i] == x);
        }
        assert forall|i: int, j: int|
            0 <= i < self@.len() && 0 <= j < self@.len() && i != j implies self@[i] != self@[j] by {
            assert(self.key2slot@.contains_key(self.slots@[i]));
            assert(self.key2slot@.contains_key(self.slots@[j]));
        }
    }

    /// Elements of a well-formed set are distinct.
    pub(crate) proof fn lemma_wf_distinct(&self)
        requires
            self.wf(),
        ensures
            self@.no_duplicates(),
    {
        self.lemma_wf_view();
    }

    /// Makes a new, empty set. Allocates nothing on its own.
    pub fn new() -> (r: Self)
        ensures
            r.wf(),
            r@ == Seq::<T>::empty(),
    {
        IndexSet { key2slot: BTreeMap::new(), slots: Vec::new() }
    }

    /// Returns the number of elements in the set.
    pub fn len(&self) -> (r: usize)
        ensures
            r == self@.len(),
    {
        self.slots.len()
    }

    /// Returns `true` if the set holds no elements.
    pub fn is_empty(&self) -> (r: bool)
        ensures
            r == (self@.len() == 0),
    {
        self.len() == 0
    }

    /// Returns `true` if the set holds an element equal to `value`.
    pub fn contains(&self, value: &T) -> (r: bool)
        where
            T: Ord,
        requires
            self.wf(),
            obeys_cmp::<T>(),
        ensures
            r == self@.contains(*value),
    {
        proof {
            self.lemma_wf_view();
        }
        self.key2slot.contains_key(value)
    }

    /// Returns a reference to the stored element equal to `value`, if any.
    pub fn get(&self, value: &T) -> (r: Option<&T>)
        where
            T: Ord,
        requires
            self.wf(),
            obeys_cmp::<T>(),
        ensures
            match r {
                Some(x) => self@.contains(*value) && *x == self@[position_in(self@, *value)],
                None => !self@.contains(*value),
            },
    {
        proof {
            self.lemma_wf_view();
        }
        match self.key2slot.get(value) {
            Some(index) => Some(&self.slots[index.index()]),
            None => None,
        }
    }

    /// Adds `value` to the set and returns whether it was new. An element
    /// equal to it is overwritten in place, keeping its position.
    pub fn insert(&mut self, value: T) -> (r: bool)
        where
            T: Ord + Clone,
        requires
            old(self).wf(),
            key_laws::<T>(),
        ensures
            final(self).wf(),
            final(self)@ == set_inserted(old(self)@, value),
            r == !old(self)@.contains(value),
    {
        proof {
            self.lemma_wf_view();
        }
        match self.key2slot.get(&value) {
            Some(index) => {
                let index = index.index();
                self.slots.set(index, value);
                false
            },
            None => {
                let new_slot = self.slots.len();
                self.key2slot.insert(value.clone(), SlotIndex(new_slot));
                self.slots.push(value);
                true
            },
        }
    }

    /// Gets an iterator over the elements of the set, in insertion order.
    pub fn iter(&self) -> (r: Iter<'_, T>)
        ensures
            r@ == self@,
    {
        Iter { slots: self.slots.as_slice() }
    }

    /// Clears the set, removing all elements.
    pub fn clear(&mut self)
        ensures
            final(self).wf(),
            final(self)@ == Seq::<T>::empty(),
    {
        self.key2slot.clear();
        self.slots.clear();
    }

    /// Inserts each element of `items` in turn.
    pub fn extend(&mut self, items: Vec<T>)
        where
            T: Ord + Clone,
        requires
            old(self).wf(),
            key_laws::<T>(),
        ensures
            final(self).wf(),
            final(self)@ == set_inserted_all(old(self)@, items@),
    {
        let ghost all = items@;
        let ghost start = self@;
        let mut items = items;
        let mut reversed: Vec<T> = Vec::new();
        while items.len() > 0
            invariant
                items@.len() + reversed@.len() == all.len(),
                items@ == all.subrange(0, items@.len() as int),
                forall|j: int|
                    0 <= j < reversed@.len() ==> #[trigger] reversed@[j] == all[all.len() - 1 - j],
            decreases items@.len(),
        {
            let item = items.pop().unwrap();
            reversed.push(item);
        }
        while reversed.len() > 0
            invariant
                self.wf(),
                key_laws::<T>(),
                reversed@.len() <= all.len(),
                self@ == set_inserted_all(start, all.subrange(0, all.len() - reversed@.len())),
                forall|j: int|
                    0 <= j < reversed@.len() ==> #[trigger] reversed@[j] == all[all.len() - 1 - j],
            decreases reversed@.len(),
        {
            let value = reversed.pop().unwrap();
            let ghost done = all.subrange(0, all.len() - reversed@.len());
            assert(done.drop_last() =~= all.subrange(0, all.len() - reversed@.len() - 1));
            self.insert(value);
        }
        assert(all.subrange(0, all.len() as int) =~= all);
    }

    /// Builds a set by inserting each element of `items` in turn.
    pub fn from_vec(items: Vec<T>) -> (r: Self)
        where
            T: Ord + Clone,
        requires
            key_laws::<T>(),
        ensures
            r.wf(),
            r@ == set_inserted_all(Seq::empty(), items@),
    {
        let mut set = IndexSet::new();
        set.extend(items);
        set
    }

    /// Consumes the set into an iterator over its elements, in insertion order.
    pub fn into_iter(self) -> (r: IntoIter<T>)
        ensures
            r@ == self@,
    {
        let ghost all = self@;
        let mut slots = self.slots;
        let mut items: VecDeque<T> = VecDeque::new();
        while slots.len() > 0
            invariant
                slots@ + items@ == all,
            decreases slots@.len(),
        {
            let item = slots.pop().unwrap();
            items.push_front(item);
            assert(slots@ + items@ =~= all);
        }
        assert(items@ =~= all);
        IntoIter { items }
    }
}

/// An iterator over the elements of an [`IndexSet`], front to back or back to
/// front.
#[derive(Debug, Clone)]
pub struct Iter<'a, T> {
    slots: &'a [T],
}

impl<'a, T> View for Iter<'a, T> {
    type V = Seq<T>;

    /// The elements not yet yielded from either end.
    closed spec fn view(&self) -> Seq<T> {
        self.slots@
    }
}

impl<'a, T> Iter<'a, T> {
    /// Yields the first element not yet yielded.
    pub fn next(&mut self) -> (r: Option<&'a T>)
        ensures
            old(self)@.len() == 0 ==> r is None && final(self)@ == old(self)@,
            old(self)@.len() > 0 ==> r == Some(&old(self)@[0]) && final(self)@
                == old(self)@.drop_first(),
    {
        if self.slots.len() == 0 {
            return None;
        }
        let (first, rest) = self.slots.split_at(1);
        self.slots = rest;
        assert(final(self)@ =~= old(self)@.drop_first());
        Some(&first[0])
    }

    /// Yields the last element not yet yielded.
    pub fn next_back(&mut self) -> (r: Option<&'a T>)
        ensures
            old(self)@.len() == 0 ==> r is None && final(self)@ == old(self)@,
            old(self)@.len() > 0 ==> r == Some(&old(self)@.last()) && final(self)@
                == old(self)@.drop_last(),
    {
        let n = self.slots.len();
        if n == 0 {
            return None;
        }
        let (rest, last) = self.slots.split_at(n - 1);
        self.slots = rest;
        assert(final(self)@ =~= old(self)@.drop_last());
        Some(&last[0])
    }

    /// Returns the number of elements not yet yielded.
    pub fn len(&self) -> (r: usize)
        ensures
            r == self@.len(),
    {
        self.slots.len()
    }

    /// Returns the exact bounds on the number of elements not yet yielded.
    pub fn size_hint(&self) -> (r: (usize, Option<usize>))
        ensures
            r.0 == self@.len(),
            r.1 == Some(self@.len() as usize),
    {
        let n = self.slots.len();
        (n, Some(n))
    }

    /// Consumes the iterator and returns the number of elements not yet yielded.
    pub fn count(self) -> (r: usize)
        ensures
            r == self@.len(),
    {
        self.slots.len()
    }
}

/// An owning iterator over the elements of an [`IndexSet`], front to back or
/// back to front.
#[derive(Debug)]
pub struct IntoIter<T> {
    items: VecDeque<T>,
}

impl<T> View for IntoIter<T> {
    type V = Seq<T>;

    /// The elements not yet yielded from either end.
    closed spec fn view(&self) -> Seq<T> {
        self.items@
    }
}

impl<T> IntoIter<T> {
    /// Yields the first element not yet yielded.
    pub fn next(&mut self) -> (r: Option<T>)
        ensures
            old(self)@.len() == 0 ==> r is None && final(self)@ == old(self)@,
            old(self)@.len() > 0 ==> r == Some(old(self)@[0]) && final(self)@
                == old(self)@.drop_first(),
    {
        self.items.pop_front()
    }

    /// Yields the last element not yet yielded.
    pub fn next_back(&mut self) -> (r: Option<T>)
        ensures
            old(self)@.len() == 0 ==> r is None && final(self)@ == old(self)@,
            old(self)@.len() > 0 ==> r == Some(old(self)@.last()) && final(self)@
                == old(self)@.drop_last(),
    {
        self.items.pop_back()
    }

    /// Returns the number of elements not yet yielded.
    pub fn len(&self) -> (r: usize)
        ensures
            r == self@.len(),
    {
        self.items.len()
    }

    /// Returns the exact bounds on the number of elements not yet yielded.
    pub fn size_hint(&self) -> (r: (usize, Option<usize>))
        ensures
            r.0 == self@.len(),
            r.1 == Some(self@.len() as usize),
    {
        let n = self.items.len();
        (n, Some(n))
    }

    /// Consumes the iterator and returns the number of elements not yet yielded.
    pub fn count(self) -> (r: usize)
        ensures
            r == self@.len(),
    {
        self.items.len()
    }
}

} // verus!
