use crate::dijkstra::weight::DijkstraWeight;
use vstd::prelude::*;

verus! {

impl DijkstraWeight for u8 {
    open spec fn value(&self) -> int {
        *self as int
    }

    open spec fn infinity_value() -> int {
        u8::MAX as int
    }

    proof fn lemma_value_bounds(&self) {
    }

    #[inline]
    fn infinity() -> (r: Self) {
        u8::MAX
    }

    #[inline]
    fn zero() -> (r: Self) {
        0
    }

    #[inline]
    fn less_than(&self, other: &Self) -> (r: bool) {
        *self < *other
    }

    #[inline]
    fn plus(&self, other: &Self) -> (r: Self) {
        if *other > u8::MAX - *self {
            u8::MAX
        } else {
            *self + *other
        }
    }
}

impl DijkstraWeight for u16 {
    open spec fn value(&self) -> int {
        *self as int
    }

    open spec fn infinity_value() -> int {
        u16::MAX as int
    }

    proof fn lemma_value_bounds(&self) {
    }

    #[inline]
    fn infinity() -> (r: Self) {
        u16::MAX
    }

    #[inline]
    fn zero() -> (r: Self) {
        0
    }

    #[inline]
    fn less_than(&self, other: &Self) -> (r: bool) {
        *self < *other
    }

    #[inline]
    fn plus(&self, other: &Self) -> (r: Self) {
        if *other > u16::MAX - *self {
            u16::MAX
        } else {
            *self + *other
        }
    }
}

impl DijkstraWeight for u32 {
    open spec fn value(&self) -> int {
        *self as int
    }

    open spec fn infinity_value() -> int {
        u32::MAX as int
    }

    proof fn lemma_value_bounds(&self) {
    }

    #[inline]
    fn infinity() -> (r: Self) {
        u32::MAX
    }

    #[inline]
    fn zero() -> (r: Self) {
        0
    }

    #[inline]
    fn less_than(&self, other: &Self) -> (r: bool) {
        *self < *other
    }

    #[inline]
    fn plus(&self, other: &Self) -> (r: Self) {
        if *other > u32::MAX - *self {
            u32::MAX
        } else {
            *self + *other
        }
    }
}

impl DijkstraWeight for u64 {
    open spec fn value(&self) -> int {
        *self as int
    }

    open spec fn infinity_value() -> int {
        u64::MAX as int
    }

    proof fn lemma_value_bounds(&self) {
    }

    #[inline]
    fn infinity() -> (r: Self) {
        u64::MAX
    }

    #[inline]
    fn zero() -> (r: Self) {
        0
    }

    #[inline]
    fn less_than(&self, other: &Self) -> (r: bool) {
        *self < *other
    }

    #[inline]
    fn plus(&self, other: &Self) -> (r: Self) {
        if *other > u64::MAX - *self {
            u64::MAX
        } else {
            *self + *other
        }
    }
}

impl DijkstraWeight for usize {
    open spec fn value(&self) -> int {
        *self as int
    }

    open spec fn infinity_value() -> int {
        usize::MAX as int
    }

    proof fn lemma_value_bounds(&self) {
    }

    #[inline]
    fn infinity() -> (r: Self) {
        usize::MAX
    }

    #[inline]
    fn zero() -> (r: Self) {
        0
    }

    #[inline]
    fn less_than(&self, other: &Self) -> (r: bool) {
        *self < *other
    }

    #[inline]
    fn plus(&self, other: &Self) -> (r: Self) {
        if *other > usize::MAX - *self {
            usize::MAX
        } else {
            *self + *other
        }
    }
}

impl DijkstraWeight for i32 {
    open spec fn value(&self) -> int {
        *self as int
    }

    open spec fn infinity_value() -> int {
        i32::MAX as int
    }

    proof fn lemma_value_bounds(&self) {
    }

    #[inline]
    fn infinity() -> (r: Self) {
        i32::MAX
    }

    #[inline]
    fn zero() -> (r: Self) {
        0
    }

    #[inline]
    fn less_than(&self, other: &Self) -> (r: bool) {
        *self < *other
    }

    #[inline]
    fn plus(&self, other: &Self) -> (r: Self) {
        if *other > i32::MAX - *self {
            i32::MAX
        } else {
            *self + *other
        }
    }
}

impl DijkstraWeight for i64 {
    open spec fn value(&self) -> int {
        *self as int
    }

    open spec fn infinity_value() -> int {
        i64::MAX as int
    }

    proof fn lemma_value_bounds(&self) {
    }

    #[inline]
    fn infinity() -> (r: Self) {
        i64::MAX
    }

    #[inline]
    fn zero() -> (r: Self) {
        0
    }

    #[inline]
    fn less_than(&self, other: &Self) -> (r: bool) {
        *self < *other
    }

    #[inline]
    fn plus(&self, other: &Self) -> (r: Self) {
        if *other > i64::MAX - *self {
            i64::MAX
        } else {
            *self + *other
        }
    }
}

} // verus!
