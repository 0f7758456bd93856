//! A store of node weights in a hash map of the `hashbrown` crate, which
//! holds only the nodes that a search has touched.
use crate::dijkstra::node_weight_array::{all_infinite, stored_value, NodeWeightArray};
use crate::dijkstra::weight::DijkstraWeight;
use vstd::prelude::*;

verus! {

/// Wrapper around `usize` with a `From<&Self>` implementation.
/// This is required to efficiently perform get-or-insert on a [hashbrown::HashMap].
#[derive(Clone, Copy, Debug, Eq, PartialEq, Ord, PartialOrd, Hash)]
pub struct ToOwnedUsize {
    /// The wrapped value.
    pub value: usize,
}

impl<'a> From<&'a ToOwnedUsize> for ToOwnedUsize {
    fn from(v: &'a ToOwnedUsize) -> (r: Self) {
        Self { value: v.value }
    }
}

impl<'a> vstd::std_specs::convert::FromSpecImpl<&'a ToOwnedUsize> for ToOwnedUsize {
    open spec fn obeys_from_spec() -> bool {
        true
    }

    open spec fn from_spec(v: &'a ToOwnedUsize) -> Self {
        ToOwnedUsize { value: v.value }
    }
}

/// A store of node weights in a hash map, keyed by the node index: a
/// `hashbrown::HashMap`, of which nothing is known here but what the functions
/// below say of it.
#[verifier::external_body]
pub struct HashMapNodeWeightArray {
    map: hashbrown::HashMap<ToOwnedUsize, u64>,
}

/// The entries of the hash map: the node indices that it holds as keys, each
/// with its weight.
pub uninterp spec fn hash_map_entries(m: HashMapNodeWeightArray) -> Map<int, u64>;

/// Calls `HashMap::default`, which gives a map without entries.
#[verifier::external_body]
fn hash_map_new() -> (m: HashMapNodeWeightArray)
    ensures
        hash_map_entries(m).dom() == Set::<int>::empty(),
{
    HashMapNodeWeightArray { map: Default::default() }
}

/// Calls `HashMap::get`, which gives the value of a key that the map holds,
/// and nothing for another key.
#[verifier::external_body]
fn hash_map_get(m: &HashMapNodeWeightArray, node_index: usize) -> (r: Option<u64>)
    ensures
        r == (if hash_map_entries(*m).dom().contains(node_index as int) {
            Some(hash_map_entries(*m)[node_index as int])
        } else {
            None
        }),
{
    m.map.get(&ToOwnedUsize { value: node_index }).copied()
}

/// Calls `HashMap::entry_ref` and `EntryRef::or_insert_with`, which give the
/// value of a key that the map holds, and insert infinity for another key and
/// give that. The key is in the map afterwards, with the value that is left
/// behind the reference.
#[verifier::external_body]
fn hash_map_get_or_insert_infinity(m: &mut HashMapNodeWeightArray, node_index: usize) -> (r: &mut u64)
    ensures
        *r == (if hash_map_entries(*old(m)).dom().contains(node_index as int) {
            hash_map_entries(*old(m))[node_index as int]
        } else {
            u64::MAX
        }),
        hash_map_entries(*final(m)) == hash_map_entries(*old(m)).insert(node_index as int, *final(r)),
{
    m.map.entry_ref(&ToOwnedUsize { value: node_index }).or_insert_with(
        || <u64 as DijkstraWeight>::infinity(),
    )
}

/// Calls `HashMap::insert`, which sets the value of the key, whether the map
/// held the key or not.
#[verifier::external_body]
fn hash_map_insert(m: &mut HashMapNodeWeightArray, node_index: usize, weight: u64)
    ensures
        hash_map_entries(*final(m)) == hash_map_entries(*old(m)).insert(node_index as int, weight),
{
    m.map.insert(ToOwnedUsize { value: node_index }, weight);
}

/// Calls `HashMap::clear`, which removes all entries.
#[verifier::external_body]
fn hash_map_clear(m: &mut HashMapNodeWeightArray)
    ensures
        hash_map_entries(*final(m)).dom() == Set::<int>::empty(),
{
    m.map.clear()
}

/// True if the map has finitely many entries, and `count` is their number.
pub open spec fn has_entry_count(entries: Map<int, u64>, count: usize) -> bool {
    entries.dom().finite() && entries.dom().len() == count
}

/// Calls `HashMap::len`, which gives the number of entries. A map holds
/// finitely many.
#[verifier::external_body]
fn hash_map_len(m: &HashMapNodeWeightArray) -> (r: usize)
    ensures
        has_entry_count(hash_map_entries(*m), r),
{
    m.map.len()
}

impl NodeWeightArray<u64> for HashMapNodeWeightArray {
    /// The invariant: the keys of the map are node indices.
    open spec fn valid(&self) -> bool {
        forall|node: int| hash_map_entries(*self).dom().contains(node) ==> 0 <= node <= usize::MAX
    }

    open spec fn entries(&self) -> Map<int, u64> {
        hash_map_entries(*self)
    }

    open spec fn node_limit(&self) -> int {
        usize::MAX + 1
    }

    open spec fn empties_on_clear() -> bool {
        true
    }

    proof fn lemma_entries_below_limit(&self) {
    }

    fn new(_size: usize) -> (r: Self) {
        let r = hash_map_new();
        proof {
            assert(hash_map_entries(r) =~= Map::<int, u64>::empty());
            assert forall|node: int| #[trigger]
                stored_value(hash_map_entries(r), node) == u64::infinity_value() by {}
        }
        r
    }

    fn get(&self, node_index: usize) -> (w: u64) {
        match hash_map_get(self, node_index) {
            Some(weight) => weight,
            None => u64::infinity(),
        }
    }

    fn get_mut(&mut self, node_index: usize) -> (w: &mut u64) {
        hash_map_get_or_insert_infinity(self, node_index)
    }

    fn set(&mut self, node_index: usize, weight: u64) {
        hash_map_insert(self, node_index, weight);
    }

    fn clear(&mut self) {
        hash_map_clear(self);
        proof {
            assert(hash_map_entries(*self) =~= Map::<int, u64>::empty());
            assert forall|node: int| #[trigger]
                stored_value(hash_map_entries(*self), node) == u64::infinity_value() by {}
        }
    }

    fn size(&self) -> (r: usize) {
        hash_map_len(self)
    }
}

} // verus!
