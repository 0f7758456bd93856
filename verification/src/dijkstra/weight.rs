use vstd::prelude::*;

verus! {

/// The smaller of two integers.
pub open spec fn min_int(a: int, b: int) -> int {
    if a <= b {
        a
    } else {
        b
    }
}

/// A weight-type usable in Dijkstra's algorithm.
///
/// Contracts speak of a weight through the integer that it stands for, its
/// [`value`](DijkstraWeight::value). Infinity is the largest value of the type,
/// and addition stops there: a sum that would pass infinity is infinity.
pub trait DijkstraWeight: Sized + Copy {
    /// The integer that this weight stands for.
    spec fn value(&self) -> int;

    /// The integer that the infinity value stands for.
    spec fn infinity_value() -> int;

    /// No weight is larger than infinity, and zero is smaller than infinity.
    proof fn lemma_value_bounds(&self)
        ensures
            self.value() <= Self::infinity_value(),
            0 < Self::infinity_value(),
    ;

    /// The infinity value of this type.
    fn infinity() -> (r: Self)
        ensures
            r.value() == Self::infinity_value(),
    ;

    /// The zero value of this type.
    fn zero() -> (r: Self)
        ensures
            r.value() == 0,
    ;

    /// Returns true if this weight is strictly smaller than `other`.
    fn less_than(&self, other: &Self) -> (r: bool)
        ensures
            r == (self.value() < other.value()),
    ;

    /// The sum of two weights that are not negative, or infinity where the sum
    /// would be larger than that.
    fn plus(&self, other: &Self) -> (r: Self)
        requires
            0 <= self.value(),
            0 <= other.value(),
        ensures
            r.value() == min_int(self.value() + other.value(), Self::infinity_value()),
    ;
}

/// Edge data that has a weight usable for shortest path computation.
pub trait DijkstraWeightedEdgeData<WeightType: DijkstraWeight> {
    /// The weight of the edge, as contracts see it.
    spec fn weight_spec(&self) -> WeightType;

    /// The weight of the edge.
    fn weight(&self) -> (w: WeightType)
        ensures
            w == self.weight_spec(),
    ;
}

impl<WeightType: DijkstraWeight> DijkstraWeightedEdgeData<WeightType> for WeightType {
    open spec fn weight_spec(&self) -> WeightType {
        *self
    }

    #[inline]
    fn weight(&self) -> (w: WeightType) {
        *self
    }
}

} // verus!
