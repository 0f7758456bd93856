use crate::dijkstra::weight::DijkstraWeight;
use vstd::prelude::*;

verus! {

/// The value that a store with the given entries gives for a node: that of its
/// entry, or infinity where it has none.
pub open spec fn stored_value<WeightType: DijkstraWeight>(
    entries: Map<int, WeightType>,
    node: int,
) -> int {
    if entries.dom().contains(node) {
        entries[node].value()
    } else {
        WeightType::infinity_value()
    }
}

/// True if every node reads as infinity in a store with the given entries.
pub open spec fn all_infinite<WeightType: DijkstraWeight>(entries: Map<int, WeightType>) -> bool {
    forall|node: int| #[trigger] stored_value(entries, node) == WeightType::infinity_value()
}

/// An array to store minimal node weights for Dijkstra's algorithm.
///
/// The model of a store is the map of its [`entries`](NodeWeightArray::entries):
/// the nodes whose weight it holds at the moment, each with that weight. A node
/// without an entry has the weight infinity.
pub trait NodeWeightArray<WeightType: DijkstraWeight>: Sized {
    /// The invariant of the store.
    spec fn valid(&self) -> bool;

    /// The entries that the store holds.
    spec fn entries(&self) -> Map<int, WeightType>;

    /// The node indices below this limit can be read and written.
    spec fn node_limit(&self) -> int;

    /// True if a store of this type holds no entry when it is new and after it
    /// was cleared. A store that always holds an entry for each node index
    /// below its limit holds infinity in each then.
    spec fn empties_on_clear() -> bool;

    /// The store holds entries for node indices below its limit only.
    proof fn lemma_entries_below_limit(&self)
        requires
            self.valid(),
        ensures
            forall|node: int| self.entries().dom().contains(node) ==> 0 <= node < self.node_limit(),
    ;

    /// Create a new NodeWeightArray of given size.
    fn new(size: usize) -> (r: Self)
        ensures
            r.valid(),
            r.node_limit() >= size,
            all_infinite(r.entries()),
            Self::empties_on_clear() ==> r.entries() == Map::<int, WeightType>::empty(),
    ;

    /// Returns the current weight of the given node index.
    fn get(&self, node_index: usize) -> (w: WeightType)
        requires
            self.valid(),
            node_index < self.node_limit(),
        ensures
            w.value() == stored_value(self.entries(), node_index as int),
            self.entries().dom().contains(node_index as int) ==> w == self.entries()[node_index as int],
    ;

    /// Returns the current weight of the given node index as mutable reference.
    /// The node has an entry afterwards, which holds what the caller leaves
    /// behind the reference.
    fn get_mut(&mut self, node_index: usize) -> (w: &mut WeightType)
        requires
            old(self).valid(),
            node_index < old(self).node_limit(),
        ensures
            (*w).value() == stored_value(old(self).entries(), node_index as int),
            old(self).entries().dom().contains(node_index as int) ==> *w == old(self).entries()[node_index as int],
            final(self).valid(),
            final(self).node_limit() == old(self).node_limit(),
            final(self).entries() == old(self).entries().insert(node_index as int, *final(w)),
    ;

    /// Sets the current weight of the given node index.
    fn set(&mut self, node_index: usize, weight: WeightType)
        requires
            old(self).valid(),
            node_index < old(self).node_limit(),
        ensures
            final(self).valid(),
            final(self).node_limit() == old(self).node_limit(),
            final(self).entries() == old(self).entries().insert(node_index as int, weight),
    ;

    /// Resets the weights of all node indices to infinity
    fn clear(&mut self)
        requires
            old(self).valid(),
        ensures
            final(self).valid(),
            final(self).node_limit() == old(self).node_limit(),
            all_infinite(final(self).entries()),
            Self::empties_on_clear() ==> final(self).entries() == Map::<int, WeightType>::empty(),
    ;

    /// Returns the number of nodes whose weight is stored in the data structure.
    fn size(&self) -> (r: usize)
        requires
            self.valid(),
        ensures
            self.entries().dom().finite(),
            r == self.entries().dom().len(),
    ;
}

/// The entries of a dense store: one for each index of the vector.
pub open spec fn dense_entries<WeightType>(weights: Seq<WeightType>) -> Map<int, WeightType> {
    Map::new(|i: int| 0 <= i < weights.len(), |i: int| weights[i])
}

impl<WeightType: DijkstraWeight> NodeWeightArray<WeightType> for Vec<WeightType> {
    open spec fn valid(&self) -> bool {
        true
    }

    open spec fn entries(&self) -> Map<int, WeightType> {
        dense_entries(self@)
    }

    open spec fn node_limit(&self) -> int {
        self@.len() as int
    }

    open spec fn empties_on_clear() -> bool {
        false
    }

    proof fn lemma_entries_below_limit(&self) {
    }

    fn new(size: usize) -> (r: Self) {
        let mut weights: Vec<WeightType> = Vec::new();
        let mut i: usize = 0;
        while i < size
            invariant
                i <= size,
                weights@.len() == i,
                forall|j: int| 0 <= j < i ==> (#[trigger] weights@[j]).value() == WeightType::infinity_value(),
            decreases size - i,
        {
            weights.push(WeightType::infinity());
            i += 1;
        }
        assert forall|node: int| #[trigger] stored_value(dense_entries(weights@), node)
            == WeightType::infinity_value() by {
            if 0 <= node < weights@.len() {
                assert(weights@[node].value() == WeightType::infinity_value());
            }
        }
        weights
    }

    #[inline]
    fn get(&self, node_index: usize) -> (w: WeightType) {
        self[node_index]
    }

    #[inline]
    fn get_mut(&mut self, node_index: usize) -> (w: &mut WeightType) {
        &mut self[node_index]
    }

    #[inline]
    fn set(&mut self, node_index: usize, weight: WeightType) {
        self[node_index] = weight;
        assert(dense_entries(self@) =~= dense_entries(old(self)@).insert(node_index as int, weight));
    }

    fn clear(&mut self) {
        let len = self.len();
        let mut i: usize = 0;
        while i < len
            invariant
                i <= len,
                self@.len() == len,
                forall|j: int| 0 <= j < i ==> (#[trigger] self@[j]).value() == WeightType::infinity_value(),
            decreases len - i,
        {
            self[i] = WeightType::infinity();
            i += 1;
        }
        assert forall|node: int| #[trigger] stored_value(dense_entries(self@), node)
            == WeightType::infinity_value() by {
            if 0 <= node < self@.len() {
                assert(self@[node].value() == WeightType::infinity_value());
            }
        }
    }

    #[inline]
    fn size(&self) -> (r: usize) {
        proof {
            vstd::set_lib::lemma_int_range(0, self@.len() as int);
            assert(dense_entries(self@).dom() =~= vstd::set_lib::set_int_range(0, self@.len() as int));
        }
        self.len()
    }
}

} // verus!
