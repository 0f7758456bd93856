//! A subgraph implementation based on bitvectors.
use crate::implementation::subgraphs::filter_iterators::{
    kept, lemma_kept_entries, lemma_kept_increasing, lemma_kept_step, lemma_neighbors_in,
    neighbors_in, FilterNeighborIterator,
};
use crate::interface::{
    edges_leading_to, Edge, GraphBase, ImmutableGraphContainer, MutableSubgraph, NavigableGraph,
    Neighbor, SubgraphBase,
};
use vstd::prelude::*;

verus! {

/// A vector of bits of the `bitvec` crate: a `bitvec::vec::BitVec`, of which
/// nothing is known here but what the functions below say of it.
#[verifier::external_body]
pub struct BitField {
    bits: bitvec::vec::BitVec,
}

/// The bits of a bit vector, in their order.
pub uninterp spec fn bits_of(b: BitField) -> Seq<bool>;

/// The sequence of the given length that holds the given bit at each place.
pub open spec fn all_bits(len: nat, bit: bool) -> Seq<bool> {
    Seq::new(len, |i: int| bit)
}

/// Calls `BitVec::repeat`, which gives a bit vector of the given length with
/// the given bit at each place. It panics where the length is more than a bit
/// vector can have, which the precondition excludes.
#[verifier::external_body]
pub(crate) fn bits_repeat(bit: bool, len: usize) -> (r: BitField)
    requires
        len <= usize::MAX / 8,
    ensures
        bits_of(r) == all_bits(len as nat, bit),
{
    BitField { bits: bitvec::vec::BitVec::repeat(bit, len) }
}

/// Calls `BitVec::len`, which gives the number of bits.
#[verifier::external_body]
pub(crate) fn bits_len(b: &BitField) -> (r: usize)
    ensures
        r == bits_of(*b).len(),
{
    b.bits.len()
}

/// Reads the bit at an index with `BitVec::index`, which panics where the
/// index is not below the length: the precondition excludes that.
#[verifier::external_body]
pub(crate) fn bits_get(b: &BitField, index: usize) -> (r: bool)
    requires
        index < bits_of(*b).len(),
    ensures
        r == bits_of(*b)[index as int],
{
    b.bits[index]
}

/// Calls `BitSlice::set`, which writes the bit at an index and panics where
/// the index is not below the length: the precondition excludes that.
#[verifier::external_body]
pub(crate) fn bits_set(b: &mut BitField, index: usize, value: bool)
    requires
        index < bits_of(*old(b)).len(),
    ensures
        bits_of(*final(b)) == bits_of(*old(b)).update(index as int, value),
{
    b.bits.set(index, value)
}

/// Calls `BitSlice::fill`, which writes the given bit at each place.
#[verifier::external_body]
pub(crate) fn bits_fill(b: &mut BitField, value: bool)
    ensures
        bits_of(*final(b)) == all_bits(bits_of(*old(b)).len(), value),
{
    b.bits.fill(value)
}

/// Calls `BitVec::clear`, which removes all bits: the length is zero afterwards.
#[verifier::external_body]
pub(crate) fn bits_clear(b: &mut BitField)
    ensures
        bits_of(*final(b)).len() == 0,
{
    b.bits.clear()
}

/// True if the index has a bit in the list that is set.
pub open spec fn bit_set_at(bits: Seq<bool>, index: usize) -> bool {
    index < bits.len() && bits[index as int]
}

/// The predicate that holds of the indices that have a bit in the list that is set.
pub open spec fn bit_set_in(bits: Seq<bool>) -> spec_fn(usize) -> bool {
    |index: usize| bit_set_at(bits, index)
}

/// The indices of the list whose bits are set.
pub(crate) fn indices_with_bit(list: Vec<usize>, bits: &BitField) -> (r: Vec<usize>)
    ensures
        r@ == kept(list@, bit_set_in(bits_of(*bits))),
{
    let ghost keep = bit_set_in(bits_of(*bits));
    let len = bits_len(bits);
    let mut r: Vec<usize> = Vec::new();
    let mut i: usize = 0;
    proof {
        assert(list@.subrange(0, list@.len() as int) =~= list@);
    }
    while i < list.len()
        invariant
            i <= list@.len(),
            len == bits_of(*bits).len(),
            keep == bit_set_in(bits_of(*bits)),
            r@ + kept(list@.subrange(i as int, list@.len() as int), keep) == kept(list@, keep),
        decreases list@.len() - i,
    {
        let index = list[i];
        proof {
            lemma_kept_step(list@, keep, i as int);
            let rest = kept(list@.subrange(i + 1, list@.len() as int), keep);
            assert(r@ + (seq![index] + rest) =~= r@.push(index) + rest);
        }
        if index < len && bits_get(bits, index) {
            r.push(index);
        }
        i += 1;
    }
    proof {
        assert(r@ + Seq::<usize>::empty() =~= r@);
    }
    r
}

/// Where no index is kept, the list of what is kept is empty.
pub proof fn lemma_none_kept(list: Seq<usize>, keep: spec_fn(usize) -> bool)
    requires
        forall|index: usize| !#[trigger] keep(index),
    ensures
        kept(list, keep).len() == 0,
{
    lemma_kept_entries(list, keep);
    if kept(list, keep).len() > 0 {
        assert(kept(list, keep).contains(kept(list, keep)[0]));
    }
}

/// A subgraph that stores the presence or absence of a node or edge using bitvectors.
pub struct BitVectorSubgraph<'a, Graph> {
    parent_graph: &'a Graph,
    present_nodes: BitField,
    present_edges: BitField,
}

impl<'a, Graph: ImmutableGraphContainer> BitVectorSubgraph<'a, Graph> {
    /// The graph of which this is a subgraph.
    pub closed spec fn parent(&self) -> &Graph {
        self.parent_graph
    }

    /// For each node index the bit that says whether the node is present.
    pub closed spec fn node_bits(&self) -> Seq<bool> {
        bits_of(self.present_nodes)
    }

    /// For each edge index the bit that says whether the edge is present.
    pub closed spec fn edge_bits(&self) -> Seq<bool> {
        bits_of(self.present_edges)
    }

    /// The invariant: the parent is valid, and what is present is in the parent.
    pub closed spec fn well_formed(&self) -> bool {
        &&& self.parent_graph.valid()
        &&& forall|node: usize| #[trigger]
            bit_set_at(bits_of(self.present_nodes), node) ==> self.parent_graph.node_ids().contains(node)
        &&& forall|edge: usize| #[trigger]
            bit_set_at(bits_of(self.present_edges), edge) ==> self.parent_graph.edge_ids().contains(edge)
    }
}

impl<'a, Graph: ImmutableGraphContainer + SubgraphBase> BitVectorSubgraph<'a, Graph> where
    Graph::RootGraph: ImmutableGraphContainer,
 {
    /// Constructs a new instance decorating the given graph.
    /// The subgraph is initialised empty. It has a bit for each node and each
    /// edge of the root of the given graph.
    pub fn new_empty(parent_graph: &'a Graph) -> (r: Self)
        requires
            parent_graph.valid(),
            parent_graph.root_spec().valid(),
            parent_graph.root_spec().node_ids().len() <= usize::MAX / 8,
            parent_graph.root_spec().edge_ids().len() <= usize::MAX / 8,
        ensures
            r.well_formed(),
            r.parent() == parent_graph,
            r.node_bits() == all_bits(parent_graph.root_spec().node_ids().len(), false),
            r.edge_bits() == all_bits(parent_graph.root_spec().edge_ids().len(), false),
    {
        Self {
            parent_graph,
            present_nodes: bits_repeat(false, parent_graph.root().node_count()),
            present_edges: bits_repeat(false, parent_graph.root().edge_count()),
        }
    }
}

impl<Graph: GraphBase> GraphBase for BitVectorSubgraph<'_, Graph> {
    type NodeData = Graph::NodeData;

    type EdgeData = Graph::EdgeData;
}

impl<Graph: SubgraphBase> SubgraphBase for BitVectorSubgraph<'_, Graph> {
    type RootGraph = Graph::RootGraph;

    closed spec fn root_spec(&self) -> &Self::RootGraph {
        self.parent_graph.root_spec()
    }

    fn root(&self) -> (r: &Self::RootGraph) {
        self.parent_graph.root()
    }
}

impl<Graph: ImmutableGraphContainer> ImmutableGraphContainer for BitVectorSubgraph<'_, Graph> {
    open spec fn valid(&self) -> bool {
        self.well_formed()
    }

    open spec fn node_ids(&self) -> Seq<usize> {
        kept(self.parent().node_ids(), bit_set_in(self.node_bits()))
    }

    open spec fn edge_ids(&self) -> Seq<usize> {
        kept(self.parent().edge_ids(), bit_set_in(self.edge_bits()))
    }

    open spec fn node_bound(&self) -> nat {
        self.parent().node_bound()
    }

    open spec fn endpoints(&self, edge_id: usize) -> Edge<usize> {
        self.parent().endpoints(edge_id)
    }

    open spec fn node_data_spec(&self, node_id: usize) -> Graph::NodeData {
        self.parent().node_data_spec(node_id)
    }

    open spec fn edge_data_spec(&self, edge_id: usize) -> Graph::EdgeData {
        self.parent().edge_data_spec(edge_id)
    }

    proof fn lemma_ids(&self) {
        self.parent().lemma_ids();
        lemma_kept_increasing(self.parent().node_ids(), bit_set_in(self.node_bits()));
        lemma_kept_increasing(self.parent().edge_ids(), bit_set_in(self.edge_bits()));
        lemma_kept_entries(self.parent().node_ids(), bit_set_in(self.node_bits()));
        assert forall|i: int| 0 <= i < self.node_ids().len() implies #[trigger] self.node_ids()[i]
            < self.node_bound() by {
            let node = self.node_ids()[i];
            assert(self.node_ids().contains(node));
            assert(self.parent().node_ids().contains(node));
            let j = choose|j: int|
                0 <= j < self.parent().node_ids().len() && self.parent().node_ids()[j] == node;
            assert(self.parent().node_ids()[j] < self.parent().node_bound());
        }
    }

    fn node_indices(&self) -> (r: Vec<usize>) {
        indices_with_bit(self.parent_graph.node_indices(), &self.present_nodes)
    }

    fn edge_indices(&self) -> (r: Vec<usize>) {
        indices_with_bit(self.parent_graph.edge_indices(), &self.present_edges)
    }

    fn contains_node_index(&self, node_id: usize) -> (r: bool) {
        proof {
            lemma_kept_entries(self.parent().node_ids(), bit_set_in(self.node_bits()));
            assert(bit_set_in(self.node_bits())(node_id) == bit_set_at(self.node_bits(), node_id));
        }
        node_id < bits_len(&self.present_nodes) && bits_get(&self.present_nodes, node_id)
    }

    fn contains_edge_index(&self, edge_id: usize) -> (r: bool) {
        proof {
            lemma_kept_entries(self.parent().edge_ids(), bit_set_in(self.edge_bits()));
            assert(bit_set_in(self.edge_bits())(edge_id) == bit_set_at(self.edge_bits(), edge_id));
        }
        edge_id < bits_len(&self.present_edges) && bits_get(&self.present_edges, edge_id)
    }

    fn node_count(&self) -> (r: usize) {
        self.node_indices().len()
    }

    fn edge_count(&self) -> (r: usize) {
        self.edge_indices().len()
    }

    fn node_data(&self, node_id: usize) -> (r: &Graph::NodeData) {
        proof {
            lemma_kept_entries(self.parent().node_ids(), bit_set_in(self.node_bits()));
        }
        self.parent_graph.node_data(node_id)
    }

    fn edge_data(&self, edge_id: usize) -> (r: &Graph::EdgeData) {
        proof {
            lemma_kept_entries(self.parent().edge_ids(), bit_set_in(self.edge_bits()));
        }
        self.parent_graph.edge_data(edge_id)
    }

    fn edge_endpoints(&self, edge_id: usize) -> (r: Edge<usize>) {
        proof {
            lemma_kept_entries(self.parent().edge_ids(), bit_set_in(self.edge_bits()));
        }
        self.parent_graph.edge_endpoints(edge_id)
    }
}

impl<Graph: NavigableGraph> NavigableGraph for BitVectorSubgraph<'_, Graph> {
    open spec fn out_list(&self, node_id: usize) -> Seq<Neighbor<usize, usize>> {
        neighbors_in(self, self.parent().out_list(node_id))
    }

    open spec fn in_list(&self, node_id: usize) -> Seq<Neighbor<usize, usize>> {
        neighbors_in(self, self.parent().in_list(node_id))
    }

    proof fn lemma_neighbors(&self, node_id: usize) {
        lemma_kept_entries(self.parent().node_ids(), bit_set_in(self.node_bits()));
        self.parent().lemma_neighbors(node_id);
        lemma_neighbors_in(self, self.parent().out_list(node_id));
        lemma_neighbors_in(self, self.parent().in_list(node_id));
    }

    fn out_neighbors(&self, node_id: usize) -> (r: Vec<Neighbor<usize, usize>>) {
        proof {
            lemma_kept_entries(self.parent().node_ids(), bit_set_in(self.node_bits()));
        }
        FilterNeighborIterator::new(self.parent_graph.out_neighbors(node_id), self).collect()
    }

    fn in_neighbors(&self, node_id: usize) -> (r: Vec<Neighbor<usize, usize>>) {
        proof {
            lemma_kept_entries(self.parent().node_ids(), bit_set_in(self.node_bits()));
        }
        FilterNeighborIterator::new(self.parent_graph.in_neighbors(node_id), self).collect()
    }

    fn edges_between(&self, from_node_id: usize, to_node_id: usize) -> (r: Vec<usize>) {
        let neighbors = self.out_neighbors(from_node_id);
        edges_leading_to(&neighbors, to_node_id)
    }
}

impl<Graph: ImmutableGraphContainer + SubgraphBase> MutableSubgraph for BitVectorSubgraph<'_, Graph> {
    open spec fn supports_removal(&self) -> bool {
        true
    }

    open spec fn can_change_node(&self, node_index: usize) -> bool {
        node_index < self.node_bits().len() && self.parent().node_ids().contains(node_index)
    }

    open spec fn can_change_edge(&self, edge_index: usize) -> bool {
        edge_index < self.edge_bits().len() && self.parent().edge_ids().contains(edge_index)
    }

    fn clear(&mut self) {
        bits_fill(&mut self.present_nodes, false);
        bits_fill(&mut self.present_edges, false);
        proof {
            lemma_none_kept(self.parent().node_ids(), bit_set_in(self.node_bits()));
            lemma_none_kept(self.parent().edge_ids(), bit_set_in(self.edge_bits()));
        }
    }

    fn fill(&mut self) {
        let nodes = self.parent_graph.node_indices();
        let node_len = bits_len(&self.present_nodes);
        let mut i: usize = 0;
        while i < nodes.len()
            invariant
                i <= nodes@.len(),
                nodes@ == self.parent_graph.node_ids(),
                self.parent_graph == old(self).parent_graph,
                self.present_edges == old(self).present_edges,
                self.well_formed(),
                node_len == self.node_bits().len(),
                self.node_bits().len() == old(self).node_bits().len(),
                forall|j: int| 0 <= j < i && nodes@[j] < node_len ==> self.node_bits()[nodes@[j] as int],
            decreases nodes@.len() - i,
        {
            if nodes[i] < node_len {
                let ghost before = self.node_bits();
                bits_set(&mut self.present_nodes, nodes[i], true);
                proof {
                    assert forall|node: usize| #[trigger]
                        bit_set_at(bits_of(self.present_nodes), node) implies self.parent_graph.node_ids().contains(
                        node,
                    ) by {
                        if node != nodes@[i as int] {
                            assert(bit_set_at(before, node));
                        }
                    }
                }
            }
            i += 1;
        }
        let edges = self.parent_graph.edge_indices();
        let edge_len = bits_len(&self.present_edges);
        let mut k: usize = 0;
        while k < edges.len()
            invariant
                k <= edges@.len(),
                edges@ == self.parent_graph.edge_ids(),
                nodes@ == self.parent_graph.node_ids(),
                self.parent_graph == old(self).parent_graph,
                self.well_formed(),
                edge_len == self.edge_bits().len(),
                self.edge_bits().len() == old(self).edge_bits().len(),
                self.node_bits().len() == old(self).node_bits().len(),
                node_len == self.node_bits().len(),
                forall|j: int|
                    0 <= j < nodes@.len() && nodes@[j] < node_len ==> self.node_bits()[nodes@[j] as int],
                forall|j: int| 0 <= j < k && edges@[j] < edge_len ==> self.edge_bits()[edges@[j] as int],
            decreases edges@.len() - k,
        {
            if edges[k] < edge_len {
                let ghost before = self.edge_bits();
                bits_set(&mut self.present_edges, edges[k], true);
                proof {
                    assert forall|edge: usize| #[trigger]
                        bit_set_at(bits_of(self.present_edges), edge) implies self.parent_graph.edge_ids().contains(
                        edge,
                    ) by {
                        if edge != edges@[k as int] {
                            assert(bit_set_at(before, edge));
                        }
                    }
                }
            }
            k += 1;
        }
        proof {
            lemma_kept_entries(self.parent().node_ids(), bit_set_in(self.node_bits()));
            lemma_kept_entries(self.parent().edge_ids(), bit_set_in(self.edge_bits()));
            assert forall|node: usize| old(self).can_change_node(node) implies self.node_ids().contains(
                node,
            ) by {
                let j = choose|j: int| 0 <= j < nodes@.len() && nodes@[j] == node;
                assert(self.node_bits()[nodes@[j] as int]);
                assert(bit_set_in(self.node_bits())(node));
            }
            assert forall|edge: usize| old(self).can_change_edge(edge) implies self.edge_ids().contains(
                edge,
            ) by {
                let j = choose|j: int| 0 <= j < edges@.len() && edges@[j] == edge;
                assert(self.edge_bits()[edges@[j] as int]);
                assert(bit_set_in(self.edge_bits())(edge));
            }
        }
    }

    fn enable_node(&mut self, node_index: usize)
        ensures
            final(self).edge_ids() == old(self).edge_ids(),
            final(self).parent() == old(self).parent(),
            final(self).node_bits() == old(self).node_bits().update(node_index as int, true),
    {
        let ghost before = self.node_bits();
        bits_set(&mut self.present_nodes, node_index, true);
        proof {
            assert forall|node: usize| #[trigger]
                bit_set_at(bits_of(self.present_nodes), node) implies self.parent_graph.node_ids().contains(
                node,
            ) by {
                if node != node_index {
                    assert(bit_set_at(before, node));
                }
            }
            lemma_kept_entries(self.parent().node_ids(), bit_set_in(before));
            lemma_kept_entries(self.parent().node_ids(), bit_set_in(self.node_bits()));
            assert forall|node: usize|
                self.node_ids().contains(node) <==> old(self).node_ids().contains(node) || node
                    == node_index by {
                assert(bit_set_in(self.node_bits())(node) == (bit_set_in(before)(node) || node
                    == node_index));
            }
        }
    }

    fn enable_edge(&mut self, edge_index: usize)
        ensures
            final(self).parent() == old(self).parent(),
            final(self).edge_bits() == old(self).edge_bits().update(edge_index as int, true),
    {
        let ghost before = self.edge_bits();
        bits_set(&mut self.present_edges, edge_index, true);
        proof {
            assert forall|edge: usize| #[trigger]
                bit_set_at(bits_of(self.present_edges), edge) implies self.parent_graph.edge_ids().contains(
                edge,
            ) by {
                if edge != edge_index {
                    assert(bit_set_at(before, edge));
                }
            }
            lemma_kept_entries(self.parent().edge_ids(), bit_set_in(before));
            lemma_kept_entries(self.parent().edge_ids(), bit_set_in(self.edge_bits()));
            assert forall|edge: usize|
                self.edge_ids().contains(edge) <==> old(self).edge_ids().contains(edge) || edge
                    == edge_index by {
                assert(bit_set_in(self.edge_bits())(edge) == (bit_set_in(before)(edge) || edge
                    == edge_index));
            }
        }
    }

    fn disable_node(&mut self, node_index: usize)
        ensures
            final(self).edge_ids() == old(self).edge_ids(),
            final(self).parent() == old(self).parent(),
            final(self).node_bits() == old(self).node_bits().update(node_index as int, false),
    {
        let ghost before = self.node_bits();
        bits_set(&mut self.present_nodes, node_index, false);
        proof {
            assert forall|node: usize| #[trigger]
                bit_set_at(bits_of(self.present_nodes), node) implies self.parent_graph.node_ids().contains(
                node,
            ) by {
                assert(bit_set_at(before, node));
            }
            lemma_kept_entries(self.parent().node_ids(), bit_set_in(before));
            lemma_kept_entries(self.parent().node_ids(), bit_set_in(self.node_bits()));
            assert forall|node: usize|
                self.node_ids().contains(node) <==> old(self).node_ids().contains(node) && node
                    != node_index by {
                assert(bit_set_in(self.node_bits())(node) == (bit_set_in(before)(node) && node
                    != node_index));
            }
        }
    }

    fn disable_edge(&mut self, edge_index: usize)
        ensures
            final(self).parent() == old(self).parent(),
            final(self).edge_bits() == old(self).edge_bits().update(edge_index as int, false),
    {
        let ghost before = self.edge_bits();
        bits_set(&mut self.present_edges, edge_index, false);
        proof {
            assert forall|edge: usize| #[trigger]
                bit_set_at(bits_of(self.present_edges), edge) implies self.parent_graph.edge_ids().contains(
                edge,
            ) by {
                assert(bit_set_at(before, edge));
            }
            lemma_kept_entries(self.parent().edge_ids(), bit_set_in(before));
            lemma_kept_entries(self.parent().edge_ids(), bit_set_in(self.edge_bits()));
            assert forall|edge: usize|
                self.edge_ids().contains(edge) <==> old(self).edge_ids().contains(edge) && edge
                    != edge_index by {
                assert(bit_set_in(self.edge_bits())(edge) == (bit_set_in(before)(edge) && edge
                    != edge_index));
            }
        }
    }
}

} // verus!
