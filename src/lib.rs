//! Insertion-ordered map and set, indexed by a B-tree over the keys.
use vstd::prelude::*;

pub mod map;
pub mod set;
pub mod laws;

pub use self::map::IndexMap;
pub use self::set::IndexSet;

verus! {

/// A position in the slot storage of a map or a set.
#[derive(Debug, Copy, Clone, PartialEq, Eq, PartialOrd, Ord)]
pub(crate) struct SlotIndex(pub(crate) usize);

impl SlotIndex {
    /// Returns the raw position held by the slot index.
    pub(crate) fn index(self) -> (r: usize)
        ensures
            r == self.0,
    {
        self.0
    }
}

} // verus!
