use vstd::prelude::*;
use crate::coord::Coord;

verus! {

/// A sequence that never holds the same item twice.
pub trait UniqueVec<T> where T: Clone + Ord {
    /// The items, in order.
    spec fn items(&self) -> Seq<T>;

    /// Appends `item` unless it is already present.
    fn upush(&mut self, item: T)
        ensures
            old(self).items().contains(item) ==> final(self).items() == old(self).items(),
            !old(self).items().contains(item) ==> final(self).items() == old(self).items().push(
                item,
            ),
    ;
}

impl UniqueVec<Coord> for Vec<Coord> {
    open spec fn items(&self) -> Seq<Coord> {
        self@
    }

    fn upush(&mut self, item: Coord) {
        let mut i: usize = 0;
        while i < self.len()
            invariant
                *self == *old(self),
                0 <= i <= self@.len(),
                forall|j: int| 0 <= j < i ==> self@[j] != item,
            decreases self@.len() - i,
        {
            if self[i] == item {
                return;
            }
            i = i + 1;
        }
        self.push(item);
    }
}

} // verus!
