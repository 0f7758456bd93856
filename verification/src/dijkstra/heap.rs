use crate::dijkstra::weight::DijkstraWeight;
use vstd::multiset::Multiset;
use vstd::prelude::*;

verus! {

/// A min-heap used in Dijkstra's shortest path algorithm.
///
/// The model of a heap is the multiset of its
/// [`contents`](DijkstraHeap::contents): one pair of a weight's value and an
/// index for each entry. An entry is never changed in place: a better weight
/// for an index is a second entry.
pub trait DijkstraHeap<WeightType: DijkstraWeight, IndexType>: Sized {
    /// The invariant of the heap.
    spec fn valid(&self) -> bool;

    /// The entries of the heap, each as the value of its weight and its index.
    spec fn contents(&self) -> Multiset<(int, IndexType)>;

    /// Create a heap without entries.
    fn new_empty() -> (r: Self)
        ensures
            r.valid(),
            r.contents() == Multiset::<(int, IndexType)>::empty(),
    ;

    /// Insert an index-weight pair into the heap.
    fn insert(&mut self, weight: WeightType, index: IndexType)
        requires
            old(self).valid(),
        ensures
            final(self).valid(),
            final(self).contents() == old(self).contents().insert((weight.value(), index)),
    ;

    /// Remove the weight and index with the smallest weight from the heap.
    fn remove_min(&mut self) -> (r: Option<(WeightType, IndexType)>)
        requires
            old(self).valid(),
        ensures
            final(self).valid(),
            r.is_none() <==> old(self).contents().len() == 0,
            r.is_none() ==> final(self).contents() == old(self).contents(),
            r.is_some() ==> {
                let entry = (r.unwrap().0.value(), r.unwrap().1);
                &&& old(self).contents().count(entry) > 0
                &&& final(self).contents() == old(self).contents().remove(entry)
                &&& forall|other: (int, IndexType)|
                    old(self).contents().count(other) > 0 ==> entry.0 <= other.0
            },
    ;

    /// Remove all entries from the heap.
    fn clear(&mut self)
        requires
            old(self).valid(),
        ensures
            final(self).valid(),
            final(self).contents() == Multiset::<(int, IndexType)>::empty(),
    ;

    /// Returns the number of entries of the heap.
    fn size(&mut self) -> (r: usize)
        requires
            old(self).valid(),
        ensures
            *final(self) == *old(self),
            r == old(self).contents().len(),
    ;
}

/// The value of an entry's weight, and its index.
pub open spec fn entry_key<WeightType: DijkstraWeight, IndexType>(
    entry: (WeightType, IndexType),
) -> (int, IndexType) {
    (entry.0.value(), entry.1)
}

/// The keys of a sequence of entries, in the same order.
pub open spec fn entry_keys<WeightType: DijkstraWeight, IndexType>(
    entries: Seq<(WeightType, IndexType)>,
) -> Seq<(int, IndexType)> {
    entries.map_values(|entry: (WeightType, IndexType)| entry_key(entry))
}

/// The position above `i` in a binary heap.
pub open spec fn parent(i: int) -> int {
    (i - 1) / 2
}

/// True if no key but the first is smaller than the key above it, where the
/// pair of `skip` and the key above it is left out.
pub open spec fn ordered_except<IndexType>(keys: Seq<(int, IndexType)>, skip: int) -> bool {
    forall|i: int| 1 <= i < keys.len() && i != skip ==> keys[parent(i)].0 <= (#[trigger] keys[i]).0
}

/// True if no key but the first is smaller than the key above it, where the
/// pairs of `skip` and the keys below it are left out.
pub open spec fn ordered_except_below<IndexType>(keys: Seq<(int, IndexType)>, skip: int) -> bool {
    forall|i: int|
        1 <= i < keys.len() && parent(i) != skip ==> keys[parent(i)].0 <= (#[trigger] keys[i]).0
}

/// True if no key but the first is smaller than the key above it.
pub open spec fn heap_ordered<IndexType>(keys: Seq<(int, IndexType)>) -> bool {
    ordered_except(keys, 0)
}

/// In an ordered heap no key is smaller than the first.
pub proof fn lemma_first_is_least<IndexType>(keys: Seq<(int, IndexType)>, i: int)
    requires
        heap_ordered(keys),
        0 <= i < keys.len(),
    ensures
        keys[0].0 <= keys[i].0,
    decreases i,
{
    if i > 0 {
        lemma_first_is_least(keys, parent(i));
    }
}

/// Exchanging two entries of a sequence leaves its multiset unchanged.
pub proof fn lemma_exchange_keeps_multiset<A>(s: Seq<A>, i: int, j: int)
    requires
        0 <= i < s.len(),
        0 <= j < s.len(),
    ensures
        s.update(i, s[j]).update(j, s[i]).to_multiset() == s.to_multiset(),
{
    broadcast use vstd::seq_lib::to_multiset_update;

    let t = s.update(i, s[j]);
    s.to_multiset_ensures();
    assert(s.contains(s[i]) && s.contains(s[j]));
    assert(t.to_multiset() == s.to_multiset().insert(s[j]).remove(s[i]));
    assert(t.update(j, s[i]).to_multiset() == t.to_multiset().insert(s[i]).remove(t[j]));
    if i == j {
        assert(s.update(i, s[j]).update(j, s[i]) =~= s);
    } else {
        assert(t[j] == s[j]);
        assert(s.to_multiset().insert(s[j]).remove(s[i]).insert(s[i]).remove(s[j])
            =~= s.to_multiset());
    }
}

/// Moving the last entry of a sequence to the front, in place of the first,
/// takes the first entry out of its multiset.
pub proof fn lemma_replace_first_by_last<A>(s: Seq<A>)
    requires
        s.len() > 0,
    ensures
        s.update(0, s.last()).drop_last().to_multiset() == s.to_multiset().remove(s[0]),
{
    broadcast use vstd::seq_lib::to_multiset_update;

    let t = s.update(0, s.last());
    let last = s.len() - 1;
    assert(t.to_multiset() == s.to_multiset().insert(s.last()).remove(s[0]));
    t.to_multiset_ensures();
    assert(t.drop_last() =~= t.remove(last));
    assert(t.remove(last).to_multiset() =~= t.to_multiset().remove(t[last]));
    assert(t[last] == s.last());
    s.to_multiset_ensures();
    assert(s.to_multiset().count(s[0]) > 0) by {
        assert(s.contains(s[0]));
    }
    assert(s.to_multiset().insert(s.last()).remove(s[0]).remove(s.last()) =~= s.to_multiset().remove(
        s[0],
    ));
}

/// True if the key above `k` is not larger than any key below `k`.
pub open spec fn above_below<IndexType>(keys: Seq<(int, IndexType)>, k: int) -> bool {
    forall|i: int|
        1 <= i < keys.len() && parent(i) == k && k > 0 ==> keys[parent(k)].0 <= (#[trigger] keys[i]).0
}

/// After the exchange of a key with the larger key above it, the order holds
/// everywhere but at the place above.
pub proof fn lemma_exchange_up<IndexType>(before: Seq<(int, IndexType)>, k: int)
    requires
        1 <= k < before.len(),
        ordered_except(before, k),
        above_below(before, k),
        before[k].0 < before[parent(k)].0,
    ensures
        ordered_except(
            before.update(k, before[parent(k)]).update(parent(k), before[k]),
            parent(k),
        ),
        above_below(before.update(k, before[parent(k)]).update(parent(k), before[k]), parent(k)),
{
    let above = parent(k);
    let after = before.update(k, before[above]).update(above, before[k]);
    assert forall|i: int| 1 <= i < after.len() && i != above implies after[parent(i)].0 <= (
    #[trigger] after[i]).0 by {
        if i == k {
        } else if parent(i) == k {
            assert(before[parent(k)].0 <= before[i].0);
        } else {
            assert(before[parent(i)].0 <= before[i].0);
        }
    }
    assert forall|i: int| 1 <= i < after.len() && parent(i) == above && above > 0 implies after[parent(
        above,
    )].0 <= (#[trigger] after[i]).0 by {
        assert(before[parent(above)].0 <= before[above].0);
        if i != k {
            assert(before[parent(i)].0 <= before[i].0);
        }
    }
}

/// After the exchange of a key with the least key below it, which is smaller,
/// the order holds everywhere but below the new place.
pub proof fn lemma_exchange_down<IndexType>(before: Seq<(int, IndexType)>, k: int, least: int)
    requires
        0 <= k < least < before.len(),
        parent(least) == k,
        ordered_except_below(before, k),
        above_below(before, k),
        before[least].0 < before[k].0,
        forall|i: int| 1 <= i < before.len() && parent(i) == k ==> before[least].0 <= (#[trigger] before[i]).0,
    ensures
        ordered_except_below(before.update(k, before[least]).update(least, before[k]), least),
        above_below(before.update(k, before[least]).update(least, before[k]), least),
{
    let after = before.update(k, before[least]).update(least, before[k]);
    assert forall|i: int| 1 <= i < after.len() && parent(i) != least implies after[parent(i)].0 <= (
    #[trigger] after[i]).0 by {
        if parent(i) == k {
            assert(before[least].0 <= before[i].0);
        } else if i == k {
            assert(before[parent(k)].0 <= before[least].0);
        } else {
            assert(before[parent(i)].0 <= before[i].0);
        }
    }
    assert forall|i: int| 1 <= i < after.len() && parent(i) == least && least > 0 implies after[parent(
        least,
    )].0 <= (#[trigger] after[i]).0 by {
        assert(before[parent(i)].0 <= before[i].0);
    }
}

/// The smaller of the two keys below `k`, or the only one, is the least key
/// below `k`.
pub proof fn lemma_least_below<IndexType>(keys: Seq<(int, IndexType)>, k: int, least: int)
    requires
        0 <= k,
        2 * k + 1 < keys.len(),
        least == 2 * k + 1 || (least == 2 * k + 2 && least < keys.len()),
        keys[least].0 <= keys[2 * k + 1].0,
        2 * k + 2 < keys.len() ==> keys[least].0 <= keys[2 * k + 2].0,
    ensures
        parent(least) == k,
        forall|i: int| 1 <= i < keys.len() && parent(i) == k ==> keys[least].0 <= (#[trigger] keys[i]).0,
{
    assert forall|i: int| 1 <= i < keys.len() && parent(i) == k implies keys[least].0 <= (
    #[trigger] keys[i]).0 by {
        assert(i == 2 * k + 1 || i == 2 * k + 2);
    }
}

/// Where the least key below `k` is not smaller than the key at `k`, the order
/// holds everywhere.
pub proof fn lemma_settled<IndexType>(keys: Seq<(int, IndexType)>, k: int, least: int)
    requires
        0 <= k < least < keys.len(),
        ordered_except_below(keys, k),
        keys[k].0 <= keys[least].0,
        forall|i: int| 1 <= i < keys.len() && parent(i) == k ==> keys[least].0 <= (#[trigger] keys[i]).0,
    ensures
        heap_ordered(keys),
{
    assert forall|i: int| 1 <= i < keys.len() implies keys[parent(i)].0 <= (#[trigger] keys[i]).0 by {
        if parent(i) == k {
            assert(keys[least].0 <= keys[i].0);
        }
    }
}

/// Where no key stands below `k`, the order holds everywhere.
pub proof fn lemma_no_entry_below<IndexType>(keys: Seq<(int, IndexType)>, k: int)
    requires
        0 <= k < keys.len(),
        ordered_except_below(keys, k),
        keys.len() - 1 - k <= k,
    ensures
        heap_ordered(keys),
{
    assert forall|i: int| 1 <= i < keys.len() implies keys[parent(i)].0 <= (#[trigger] keys[i]).0 by {
        if parent(i) == k {
            assert(i >= 2 * k + 1);
        }
    }
}

/// A binary min-heap in a vector, ordered by the weights of its entries.
pub struct BinaryMinHeap<WeightType, IndexType> {
    data: Vec<(WeightType, IndexType)>,
}

impl<WeightType: DijkstraWeight, IndexType: Copy> BinaryMinHeap<WeightType, IndexType> {
    /// The keys of the entries, in the order of the vector.
    pub closed spec fn keys(&self) -> Seq<(int, IndexType)> {
        entry_keys(self.data@)
    }

    /// Exchanges the entries at two positions.
    fn exchange(&mut self, i: usize, j: usize)
        requires
            i < old(self).data@.len(),
            j < old(self).data@.len(),
        ensures
            final(self).data@ == old(self).data@.update(i as int, old(self).data@[j as int]).update(
                j as int,
                old(self).data@[i as int],
            ),
            final(self).keys() == old(self).keys().update(i as int, old(self).keys()[j as int]).update(
                j as int,
                old(self).keys()[i as int],
            ),
            final(self).keys().to_multiset() == old(self).keys().to_multiset(),
    {
        let a = self.data[i];
        let b = self.data[j];
        self.data[i] = b;
        self.data[j] = a;
        proof {
            assert(self.keys() =~= old(self).keys().update(i as int, old(self).keys()[j as int]).update(
                j as int,
                old(self).keys()[i as int],
            ));
            lemma_exchange_keeps_multiset(old(self).keys(), i as int, j as int);
        }
    }

    /// Moves the entry at `start` up until the entry above it is not larger.
    fn sift_up(&mut self, start: usize)
        requires
            start < old(self).data@.len(),
            ordered_except(old(self).keys(), start as int),
            above_below(old(self).keys(), start as int),
        ensures
            heap_ordered(final(self).keys()),
            final(self).keys().to_multiset() == old(self).keys().to_multiset(),
            final(self).data@.len() == old(self).data@.len(),
    {
        let mut k: usize = start;
        while k > 0 && self.data[k].0.less_than(&self.data[(k - 1) / 2].0)
            invariant
                k < self.data@.len(),
                self.data@.len() == old(self).data@.len(),
                self.keys().len() == self.data@.len(),
                ordered_except(self.keys(), k as int),
                above_below(self.keys(), k as int),
                self.keys().to_multiset() == old(self).keys().to_multiset(),
            decreases k,
        {
            let above: usize = (k - 1) / 2;
            let ghost before = self.keys();
            self.exchange(k, above);
            proof {
                lemma_exchange_up(before, k as int);
            }
            k = above;
        }
        proof {
            let keys = self.keys();
            assert forall|i: int| 1 <= i < keys.len() implies keys[parent(i)].0 <= (#[trigger] keys[i]).0 by {
                if i == k {
                    assert(keys[k as int].0 == self.data@[k as int].0.value());
                    assert(keys[parent(k as int)].0 == self.data@[parent(k as int)].0.value());
                }
            }
        }
    }

    /// Moves the first entry down until no entry below it is smaller.
    fn sift_down(&mut self)
        requires
            ordered_except_below(old(self).keys(), 0),
        ensures
            heap_ordered(final(self).keys()),
            final(self).keys().to_multiset() == old(self).keys().to_multiset(),
            final(self).data@.len() == old(self).data@.len(),
    {
        let len: usize = self.data.len();
        if len == 0 {
            return ;
        }
        let mut k: usize = 0;
        let mut done: bool = false;
        while !done && len - 1 - k > k
            invariant
                len == self.data@.len(),
                self.keys().len() == len,
                k < len,
                !done ==> ordered_except_below(self.keys(), k as int),
                !done ==> above_below(self.keys(), k as int),
                done ==> heap_ordered(self.keys()),
                self.keys().to_multiset() == old(self).keys().to_multiset(),
            decreases
                    (if done {
                        0
                    } else {
                        len - k
                    }),
        {
            let left: usize = 2 * k + 1;
            let mut least: usize = left;
            if left + 1 < len && self.data[left + 1].0.less_than(&self.data[left].0) {
                least = left + 1;
            }
            proof {
                let keys = self.keys();
                assert(keys[k as int].0 == self.data@[k as int].0.value());
                assert(keys[left as int].0 == self.data@[left as int].0.value());
                assert(keys[least as int].0 == self.data@[least as int].0.value());
                if left + 1 < len {
                    assert(keys[left + 1].0 == self.data@[left + 1].0.value());
                }
                lemma_least_below(keys, k as int, least as int);
            }
            if self.data[least].0.less_than(&self.data[k].0) {
                let ghost before = self.keys();
                self.exchange(k, least);
                proof {
                    lemma_exchange_down(before, k as int, least as int);
                }
                k = least;
            } else {
                proof {
                    lemma_settled(self.keys(), k as int, least as int);
                }
                done = true;
            }
        }
        proof {
            if !done {
                lemma_no_entry_below(self.keys(), k as int);
            }
        }
    }
}

impl<WeightType: DijkstraWeight, IndexType: Copy> DijkstraHeap<
    WeightType,
    IndexType,
> for BinaryMinHeap<WeightType, IndexType> {
    closed spec fn valid(&self) -> bool {
        heap_ordered(self.keys())
    }

    closed spec fn contents(&self) -> Multiset<(int, IndexType)> {
        self.keys().to_multiset()
    }

    fn new_empty() -> (r: Self) {
        let r = Self { data: Vec::new() };
        proof {
            assert(r.keys() =~= Seq::<(int, IndexType)>::empty());
            r.keys().to_multiset_ensures();
            assert(r.keys().to_multiset().len() == 0);
            assert(r.keys().to_multiset() =~= Multiset::<(int, IndexType)>::empty());
        }
        r
    }

    fn insert(&mut self, weight: WeightType, index: IndexType) {
        self.data.push((weight, index));
        proof {
            assert(self.keys() =~= old(self).keys().push((weight.value(), index)));
            old(self).keys().to_multiset_ensures();
        }
        let last: usize = self.data.len() - 1;
        self.sift_up(last);
    }

    fn remove_min(&mut self) -> (r: Option<(WeightType, IndexType)>) {
        proof {
            self.keys().to_multiset_ensures();
        }
        if self.data.len() == 0 {
            return None;
        }
        let first = self.data.swap_remove(0);
        proof {
            let keys = old(self).keys();
            assert(self.keys() =~= keys.update(0, keys.last()).drop_last());
            lemma_replace_first_by_last(keys);
            assert(keys.contains(keys[0]));
            assert forall|other: (int, IndexType)| keys.to_multiset().count(other) > 0 implies keys[0].0
                <= other.0 by {
                let i = choose|i: int| 0 <= i < keys.len() && keys[i] == other;
                lemma_first_is_least(keys, i);
            }
            let now = self.keys();
            assert forall|i: int| 1 <= i < now.len() && parent(i) != 0 implies now[parent(i)].0 <= (
            #[trigger] now[i]).0 by {
                assert(keys[parent(i)].0 <= keys[i].0);
            }
        }
        self.sift_down();
        Some(first)
    }

    fn clear(&mut self) {
        self.data.clear();
        proof {
            assert(self.keys() =~= Seq::<(int, IndexType)>::empty());
            self.keys().to_multiset_ensures();
            assert(self.keys().to_multiset().len() == 0);
            assert(self.keys().to_multiset() =~= Multiset::<(int, IndexType)>::empty());
        }
    }

    fn size(&mut self) -> (r: usize) {
        proof {
            self.keys().to_multiset_ensures();
        }
        self.data.len()
    }
}

} // verus!
