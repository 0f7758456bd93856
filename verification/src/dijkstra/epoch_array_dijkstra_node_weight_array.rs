use crate::dijkstra::node_weight_array::{all_infinite, stored_value, NodeWeightArray};
use crate::dijkstra::weight::DijkstraWeight;
use vstd::prelude::*;

verus! {

/// An epoch counter array.
///
/// This can be used to check if an index is current by comparing its entry in the epoch array to the current epoch.
/// To unmark all values, the current epoch can be increased in O(1). Only overflows have to be handled by resetting all epoch counters.
pub struct EpochArray {
    epochs: Vec<u32>,
    current_epoch: u32,
}

/// The sequence of the given length that holds zero at each place.
pub open spec fn zeros(len: nat) -> Seq<u32> {
    Seq::new(len, |i: int| 0u32)
}

impl EpochArray {
    /// The epoch with which each index is marked.
    pub closed spec fn tags(&self) -> Seq<u32> {
        self.epochs@
    }

    /// The current epoch.
    pub closed spec fn epoch(&self) -> u32 {
        self.current_epoch
    }

    /// The invariant: the current epoch is at least one, and no index is marked
    /// with a later epoch than the current one.
    pub open spec fn valid(&self) -> bool {
        &&& self.epoch() >= 1
        &&& forall|i: int| 0 <= i < self.tags().len() ==> #[trigger] self.tags()[i] <= self.epoch()
    }

    /// The number of indices.
    pub open spec fn spec_len(&self) -> nat {
        self.tags().len()
    }

    /// True if the given index is current: it is marked with the current epoch.
    pub open spec fn is_current(&self, index: int) -> bool {
        0 <= index < self.tags().len() && self.tags()[index] == self.epoch()
    }

    /// The set of the indices that are current.
    pub open spec fn current(&self) -> Set<int> {
        Set::new(|i: int| self.is_current(i))
    }

    /// The current indices are finitely many, and not more than there are indices.
    pub proof fn lemma_current_bounded(&self)
        ensures
            self.current().finite(),
            self.current().len() <= self.spec_len(),
    {
        let all = vstd::set_lib::set_int_range(0, self.tags().len() as int);
        vstd::set_lib::lemma_int_range(0, self.tags().len() as int);
        assert(self.current().subset_of(all));
        vstd::set_lib::lemma_len_subset(self.current(), all);
    }

    /// Create a new epoch array of given length where all values are outdated.
    pub fn new(len: usize) -> (r: Self)
        ensures
            r.valid(),
            r.tags() == zeros(len as nat),
            r.epoch() == 1,
            r.current() == Set::<int>::empty(),
    {
        let mut epochs: Vec<u32> = Vec::new();
        let mut i: usize = 0;
        while i < len
            invariant
                i <= len,
                epochs@.len() == i,
                forall|j: int| 0 <= j < i ==> #[trigger] epochs@[j] == 0,
            decreases len - i,
        {
            epochs.push(0);
            i += 1;
        }
        let r = Self { epochs, current_epoch: 1 };
        proof {
            assert(r.tags() =~= zeros(len as nat));
            assert(r.current() =~= Set::<int>::empty());
        }
        r
    }

    /// Outdate all indices.
    ///
    /// The current epoch becomes the next one. Where it is the last one
    /// already, every index is marked with zero instead, and the current epoch
    /// becomes one again.
    pub fn clear(&mut self)
        requires
            old(self).valid(),
        ensures
            final(self).valid(),
            final(self).current() == Set::<int>::empty(),
            old(self).epoch() < u32::MAX
                ==> final(self).epoch() == old(self).epoch() + 1 && final(self).tags() == old(self).tags(),
            old(self).epoch() == u32::MAX ==> final(self).epoch() == 1 && final(self).tags() == zeros(
                old(self).tags().len(),
            ),
    {
        if self.current_epoch == u32::MAX {
            let len = self.epochs.len();
            let mut i: usize = 0;
            while i < len
                invariant
                    i <= len,
                    self.epochs@.len() == len,
                    forall|j: int| 0 <= j < i ==> #[trigger] self.epochs@[j] == 0,
                decreases len - i,
            {
                self.epochs[i] = 0;
                i += 1;
            }
            self.current_epoch = 1;
            proof {
                assert(self.tags() =~= zeros(old(self).tags().len()));
            }
        } else {
            self.current_epoch += 1;
        }
        proof {
            assert forall|i: int| 0 <= i < self.tags().len() implies #[trigger] self.tags()[i]
                < self.epoch() by {
                if old(self).epoch() < u32::MAX {
                    assert(old(self).tags()[i] <= old(self).epoch());
                }
            }
            assert forall|i: int| !self.is_current(i) by {
                if 0 <= i < self.tags().len() {
                    assert(self.tags()[i] < self.epoch());
                }
            }
            assert(self.current() =~= Set::<int>::empty());
        }
    }

    /// Set the given index as current and returns true if the given index was current before, and false otherwise
    #[inline]
    pub fn update(&mut self, index: usize) -> (r: bool)
        requires
            old(self).valid(),
            index < old(self).spec_len(),
        ensures
            final(self).valid(),
            final(self).epoch() == old(self).epoch(),
            final(self).tags() == old(self).tags().update(index as int, old(self).epoch()),
            r == old(self).is_current(index as int),
            final(self).current() == old(self).current().insert(index as int),
    {
        let result = self.epochs[index] == self.current_epoch;
        self.epochs[index] = self.current_epoch;
        proof {
            assert(self.current() =~= old(self).current().insert(index as int));
        }
        result
    }

    /// Returns true if the given index is current, and false otherwise.
    #[inline]
    pub fn get(&self, index: usize) -> (r: bool)
        requires
            self.valid(),
            index < self.spec_len(),
        ensures
            r == self.is_current(index as int),
    {
        self.epochs[index] == self.current_epoch
    }

    /// Updates the given index and returns true if the given index was current before, and false otherwise.
    #[inline]
    pub fn get_and_update(&mut self, index: usize) -> (r: bool)
        requires
            old(self).valid(),
            index < old(self).spec_len(),
        ensures
            final(self).valid(),
            final(self).epoch() == old(self).epoch(),
            final(self).tags() == old(self).tags().update(index as int, old(self).epoch()),
            r == old(self).is_current(index as int),
            final(self).current() == old(self).current().insert(index as int),
    {
        if self.epochs[index] == self.current_epoch {
            proof {
                assert(self.tags() =~= old(self).tags().update(index as int, old(self).epoch()));
                assert(self.current() =~= old(self).current().insert(index as int));
            }
            true
        } else {
            self.epochs[index] = self.current_epoch;
            proof {
                assert(self.current() =~= old(self).current().insert(index as int));
            }
            false
        }
    }
}

/// The map that holds, for each of the given indices, the weight at that index.
pub open spec fn entries_at<WeightType>(weights: Seq<WeightType>, indices: Set<int>) -> Map<
    int,
    WeightType,
> {
    Map::new(|i: int| indices.contains(i), |i: int| weights[i])
}

/// An epoched node weight array that can be cleared in O(1) most of the times.
/// Only if the epoch in the epoch array overflows, clearing takes linear time.
pub struct EpochNodeWeightArray<WeightType> {
    weights: Vec<WeightType>,
    epochs: EpochArray,
    size: usize,
}

impl<WeightType: DijkstraWeight> EpochNodeWeightArray<WeightType> {
    /// The entries of the store: the weights at the indices that are current.
    pub closed spec fn live_entries(&self) -> Map<int, WeightType> {
        entries_at(self.weights@, self.epochs.current())
    }

    /// The invariant: one epoch for each weight, no more weights than a vector
    /// can hold, and the counter is the number of the current indices.
    pub closed spec fn well_formed(&self) -> bool {
        &&& self.epochs.valid()
        &&& self.epochs.spec_len() == self.weights@.len()
        &&& self.weights@.len() <= usize::MAX
        &&& self.size == self.epochs.current().len()
    }

    #[inline]
    fn make_current(&mut self, node_index: usize)
        requires
            old(self).well_formed(),
            node_index < old(self).weights@.len(),
        ensures
            final(self).well_formed(),
            final(self).weights@.len() == old(self).weights@.len(),
            final(self).live_entries().dom() == old(self).live_entries().dom().insert(node_index as int),
            final(self).live_entries().dom().contains(node_index as int),
            final(self).weights@[node_index as int].value() == stored_value(
                old(self).live_entries(),
                node_index as int,
            ),
            old(self).live_entries().dom().contains(node_index as int) ==> final(self).weights@
                == old(self).weights@,
            forall|i: int|
                0 <= i < final(self).weights@.len() && i != node_index
                    ==> final(self).weights@[i] == old(self).weights@[i],
            final(self).epochs.current() == old(self).epochs.current().insert(node_index as int),
    {
        proof {
            self.epochs.lemma_current_bounded();
        }
        if !self.epochs.get_and_update(node_index) {
            proof {
                self.epochs.lemma_current_bounded();
                assert(self.epochs.current().len() == old(self).epochs.current().len() + 1);
            }
            self.weights[node_index] = WeightType::infinity();
            self.size += 1;
        }
        assert(self.live_entries().dom() =~= old(self).live_entries().dom().insert(node_index as int));
    }
}

impl<WeightType: DijkstraWeight> NodeWeightArray<WeightType> for EpochNodeWeightArray<WeightType> {
    open spec fn valid(&self) -> bool {
        self.well_formed()
    }

    open spec fn entries(&self) -> Map<int, WeightType> {
        self.live_entries()
    }

    closed spec fn node_limit(&self) -> int {
        self.weights@.len() as int
    }

    open spec fn empties_on_clear() -> bool {
        true
    }

    proof fn lemma_entries_below_limit(&self) {
    }

    fn new(len: usize) -> (r: Self) {
        let mut weights: Vec<WeightType> = Vec::new();
        let mut i: usize = 0;
        while i < len
            invariant
                i <= len,
                weights@.len() == i,
            decreases len - i,
        {
            weights.push(WeightType::infinity());
            i += 1;
        }
        let r = Self { weights, epochs: EpochArray::new(len), size: 0 };
        assert(r.live_entries() =~= Map::<int, WeightType>::empty());
        r
    }

    #[inline]
    fn get(&self, node_index: usize) -> (w: WeightType) {
        if self.epochs.get(node_index) {
            self.weights[node_index]
        } else {
            WeightType::infinity()
        }
    }

    #[inline]
    fn get_mut(&mut self, node_index: usize) -> (w: &mut WeightType) {
        self.make_current(node_index);
        proof {
            let weights = self.weights@;
            let indices = self.epochs.current();
            assert(entries_at(weights, indices)
                =~= entries_at(old(self).weights@, old(self).epochs.current()).insert(node_index as int, weights[node_index as int]));
            assert forall|x: WeightType|
                #[trigger] entries_at(weights.update(node_index as int, x), indices) == old(self).live_entries().insert(node_index as int, x) by {
                assert(entries_at(weights.update(node_index as int, x), indices)
                    =~= old(self).live_entries().insert(node_index as int, x));
            }
        }
        &mut self.weights[node_index]
    }

    #[inline]
    fn set(&mut self, node_index: usize, weight: WeightType) {
        proof {
            self.epochs.lemma_current_bounded();
        }
        self.weights[node_index] = weight;
        if !self.epochs.update(node_index) {
            proof {
                self.epochs.lemma_current_bounded();
                assert(self.epochs.current().len() == old(self).epochs.current().len() + 1);
            }
            self.size += 1;
        }
        assert(self.live_entries() =~= old(self).live_entries().insert(node_index as int, weight));
    }

    fn clear(&mut self) {
        self.epochs.clear();
        self.size = 0;
        assert(self.live_entries() =~= Map::<int, WeightType>::empty());
    }

    fn size(&self) -> (r: usize) {
        proof {
            self.epochs.lemma_current_bounded();
            assert(self.live_entries().dom() =~= self.epochs.current());
        }
        self.size
    }
}

} // verus!
