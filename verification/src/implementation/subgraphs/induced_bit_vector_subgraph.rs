//! A subgraph implementation based on bitvectors.
//!
//! This subgraph only allows to enable or disable nodes,
//! and edges are automatically contained if their endpoints exist.
use crate::implementation::subgraphs::bit_vector_subgraph::{
    all_bits, bit_set_at, bit_set_in, bits_clear, bits_get, bits_len, bits_of, bits_repeat,
    bits_set, indices_with_bit, lemma_none_kept, BitField,
};
use crate::implementation::subgraphs::filter_iterators::{
    kept, lemma_kept_entries, lemma_kept_increasing, lemma_kept_step,
};
use crate::interface::{Edge, GraphBase, ImmutableGraphContainer, MutableSubgraph, SubgraphBase};
use vstd::prelude::*;

verus! {

/// The predicate that holds of the edges of the graph whose endpoints both
/// have a bit in the list that is set.
pub open spec fn joins_set<Graph: ImmutableGraphContainer>(graph: &Graph, bits: Seq<bool>) -> spec_fn(
    usize,
) -> bool {
    |edge: usize|
        bit_set_at(bits, graph.endpoints(edge).from_node) && bit_set_at(
            bits,
            graph.endpoints(edge).to_node,
        )
}

/// A subgraph implementation based on bitvectors.
/// This subgraph only allows to enable or disable nodes,
/// and edges are automatically contained if their endpoints exist.
pub struct InducedBitVectorSubgraph<'a, Graph> {
    parent_graph: &'a Graph,
    present_nodes: BitField,
}

impl<'a, Graph: ImmutableGraphContainer> InducedBitVectorSubgraph<'a, Graph> {
    /// The graph of which this is a subgraph.
    pub closed spec fn parent(&self) -> &Graph {
        self.parent_graph
    }

    /// For each node index the bit that says whether the node is present.
    pub closed spec fn node_bits(&self) -> Seq<bool> {
        bits_of(self.present_nodes)
    }

    /// The invariant: the parent is valid, and the nodes that are present are in the parent.
    pub closed spec fn well_formed(&self) -> bool {
        &&& self.parent_graph.valid()
        &&& forall|node: usize| #[trigger]
            bit_set_at(bits_of(self.present_nodes), node) ==> self.parent_graph.node_ids().contains(node)
    }

    /// Returns true if the bit of the node is set.
    fn is_present(&self, node_id: usize) -> (r: bool)
        ensures
            r == bit_set_at(self.node_bits(), node_id),
    {
        node_id < bits_len(&self.present_nodes) && bits_get(&self.present_nodes, node_id)
    }
}

impl<'a, Graph: ImmutableGraphContainer + SubgraphBase> InducedBitVectorSubgraph<'a, Graph> where
    Graph::RootGraph: ImmutableGraphContainer,
 {
    /// Constructs a new instance decorating the given graph.
    /// The subgraph is initialised empty. It has a bit for each node of the
    /// root of the given graph.
    pub fn new_empty(parent_graph: &'a Graph) -> (r: Self)
        requires
            parent_graph.valid(),
            parent_graph.root_spec().valid(),
            parent_graph.root_spec().node_ids().len() <= usize::MAX / 8,
        ensures
            r.well_formed(),
            r.parent() == parent_graph,
            r.node_bits() == all_bits(parent_graph.root_spec().node_ids().len(), false),
    {
        Self { parent_graph, present_nodes: bits_repeat(false, parent_graph.root().node_count()) }
    }
}

impl<Graph: GraphBase> GraphBase for InducedBitVectorSubgraph<'_, Graph> {
    type NodeData = Graph::NodeData;

    type EdgeData = Graph::EdgeData;
}

impl<Graph: SubgraphBase> SubgraphBase for InducedBitVectorSubgraph<'_, Graph> {
    type RootGraph = Graph::RootGraph;

    closed spec fn root_spec(&self) -> &Self::RootGraph {
        self.parent_graph.root_spec()
    }

    fn root(&self) -> (r: &Self::RootGraph) {
        self.parent_graph.root()
    }
}

impl<Graph: ImmutableGraphContainer> ImmutableGraphContainer for InducedBitVectorSubgraph<'_, Graph> {
    open spec fn valid(&self) -> bool {
        self.well_formed()
    }

    open spec fn node_ids(&self) -> Seq<usize> {
        kept(self.parent().node_ids(), bit_set_in(self.node_bits()))
    }

    open spec fn edge_ids(&self) -> Seq<usize> {
        kept(self.parent().edge_ids(), joins_set(self.parent(), self.node_bits()))
    }

    open spec fn node_bound(&self) -> nat {
        self.parent().node_bound()
    }

    open spec fn endpoints(&self, edge_id: usize) -> Edge<usize> {
        self.parent().endpoints(edge_id)
    }

    open spec fn node_data_spec(&self, node_id: usize) -> Graph::NodeData {
        self.parent().node_data_spec(node_id)
    }

    open spec fn edge_data_spec(&self, edge_id: usize) -> Graph::EdgeData {
        self.parent().edge_data_spec(edge_id)
    }

    proof fn lemma_ids(&self) {
        self.parent().lemma_ids();
        lemma_kept_increasing(self.parent().node_ids(), bit_set_in(self.node_bits()));
        lemma_kept_increasing(self.parent().edge_ids(), joins_set(self.parent(), self.node_bits()));
        lemma_kept_entries(self.parent().node_ids(), bit_set_in(self.node_bits()));
        assert forall|i: int| 0 <= i < self.node_ids().len() implies #[trigger] self.node_ids()[i]
            < self.node_bound() by {
            let node = self.node_ids()[i];
            assert(self.node_ids().contains(node));
            assert(self.parent().node_ids().contains(node));
            let j = choose|j: int|
                0 <= j < self.parent().node_ids().len() && self.parent().node_ids()[j] == node;
            assert(self.parent().node_ids()[j] < self.parent().node_bound());
        }
    }

    fn node_indices(&self) -> (r: Vec<usize>) {
        indices_with_bit(self.parent_graph.node_indices(), &self.present_nodes)
    }

    fn edge_indices(&self) -> (r: Vec<usize>) {
        let ghost keep = joins_set(self.parent(), self.node_bits());
        let list = self.parent_graph.edge_indices();
        let mut r: Vec<usize> = Vec::new();
        let mut i: usize = 0;
        proof {
            assert(list@.subrange(0, list@.len() as int) =~= list@);
        }
        while i < list.len()
            invariant
                i <= list@.len(),
                self.well_formed(),
                list@ == self.parent().edge_ids(),
                keep == joins_set(self.parent(), self.node_bits()),
                r@ + kept(list@.subrange(i as int, list@.len() as int), keep) == kept(list@, keep),
            decreases list@.len() - i,
        {
            let index = list[i];
            proof {
                lemma_kept_step(list@, keep, i as int);
                let rest = kept(list@.subrange(i + 1, list@.len() as int), keep);
                assert(r@ + (seq![index] + rest) =~= r@.push(index) + rest);
                assert(self.parent().edge_ids().contains(list@[i as int]));
            }
            let endpoints = self.parent_graph.edge_endpoints(index);
            if self.is_present(endpoints.from_node) && self.is_present(endpoints.to_node) {
                r.push(index);
            }
            i += 1;
        }
        proof {
            assert(r@ + Seq::<usize>::empty() =~= r@);
        }
        r
    }

    fn contains_node_index(&self, node_id: usize) -> (r: bool) {
        proof {
            lemma_kept_entries(self.parent().node_ids(), bit_set_in(self.node_bits()));
            assert(bit_set_in(self.node_bits())(node_id) == bit_set_at(self.node_bits(), node_id));
        }
        self.is_present(node_id)
    }

    fn contains_edge_index(&self, edge_id: usize) -> (r: bool) {
        proof {
            let keep = joins_set(self.parent(), self.node_bits());
            lemma_kept_entries(self.parent().edge_ids(), keep);
            assert(self.edge_ids().contains(edge_id) <==> self.parent().edge_ids().contains(edge_id)
                && keep(edge_id));
        }
        if !self.parent_graph.contains_edge_index(edge_id) {
            return false;
        }
        let endpoints = self.parent_graph.edge_endpoints(edge_id);
        self.is_present(endpoints.from_node) && self.is_present(endpoints.to_node)
    }

    fn node_count(&self) -> (r: usize) {
        self.node_indices().len()
    }

    fn edge_count(&self) -> (r: usize) {
        self.edge_indices().len()
    }

    fn node_data(&self, node_id: usize) -> (r: &Graph::NodeData) {
        proof {
            lemma_kept_entries(self.parent().node_ids(), bit_set_in(self.node_bits()));
        }
        self.parent_graph.node_data(node_id)
    }

    fn edge_data(&self, edge_id: usize) -> (r: &Graph::EdgeData) {
        proof {
            lemma_kept_entries(self.parent().edge_ids(), joins_set(self.parent(), self.node_bits()));
        }
        self.parent_graph.edge_data(edge_id)
    }

    fn edge_endpoints(&self, edge_id: usize) -> (r: Edge<usize>) {
        proof {
            lemma_kept_entries(self.parent().edge_ids(), joins_set(self.parent(), self.node_bits()));
        }
        self.parent_graph.edge_endpoints(edge_id)
    }
}

impl<Graph: ImmutableGraphContainer + SubgraphBase> MutableSubgraph for InducedBitVectorSubgraph<
    '_,
    Graph,
> {
    open spec fn supports_removal(&self) -> bool {
        true
    }

    open spec fn can_change_node(&self, node_index: usize) -> bool {
        node_index < self.node_bits().len() && self.parent().node_ids().contains(node_index)
    }

    /// The edges follow the nodes: no edge can be enabled or disabled.
    open spec fn can_change_edge(&self, edge_index: usize) -> bool {
        false
    }

    /// Removes all nodes from the subgraph, and the bits with them: no node
    /// can be enabled afterwards.
    fn clear(&mut self)
        ensures
            final(self).parent() == old(self).parent(),
            final(self).node_bits().len() == 0,
    {
        bits_clear(&mut self.present_nodes);
        proof {
            lemma_none_kept(self.parent().node_ids(), bit_set_in(self.node_bits()));
            lemma_none_kept(self.parent().edge_ids(), joins_set(self.parent(), self.node_bits()));
        }
    }

    fn fill(&mut self) {
        let nodes = self.parent_graph.node_indices();
        let node_len = bits_len(&self.present_nodes);
        let mut i: usize = 0;
        while i < nodes.len()
            invariant
                i <= nodes@.len(),
                nodes@ == self.parent_graph.node_ids(),
                self.parent_graph == old(self).parent_graph,
                self.well_formed(),
                node_len == self.node_bits().len(),
                self.node_bits().len() == old(self).node_bits().len(),
                forall|j: int| 0 <= j < i && nodes@[j] < node_len ==> self.node_bits()[nodes@[j] as int],
            decreases nodes@.len() - i,
        {
            if nodes[i] < node_len {
                let ghost before = self.node_bits();
                bits_set(&mut self.present_nodes, nodes[i], true);
                proof {
                    assert forall|node: usize| #[trigger]
                        bit_set_at(bits_of(self.present_nodes), node) implies self.parent_graph.node_ids().contains(
                        node,
                    ) by {
                        if node != nodes@[i as int] {
                            assert(bit_set_at(before, node));
                        }
                    }
                }
            }
            i += 1;
        }
        proof {
            lemma_kept_entries(self.parent().node_ids(), bit_set_in(self.node_bits()));
            assert forall|node: usize| old(self).can_change_node(node) implies self.node_ids().contains(
                node,
            ) by {
                let j = choose|j: int| 0 <= j < nodes@.len() && nodes@[j] == node;
                assert(self.node_bits()[nodes@[j] as int]);
                assert(bit_set_in(self.node_bits())(node));
            }
        }
    }

    fn enable_node(&mut self, node_index: usize)
        ensures
            final(self).parent() == old(self).parent(),
            final(self).node_bits() == old(self).node_bits().update(node_index as int, true),
    {
        let ghost before = self.node_bits();
        bits_set(&mut self.present_nodes, node_index, true);
        proof {
            assert forall|node: usize| #[trigger]
                bit_set_at(bits_of(self.present_nodes), node) implies self.parent_graph.node_ids().contains(
                node,
            ) by {
                if node != node_index {
                    assert(bit_set_at(before, node));
                }
            }
            lemma_kept_entries(self.parent().node_ids(), bit_set_in(before));
            lemma_kept_entries(self.parent().node_ids(), bit_set_in(self.node_bits()));
            assert forall|node: usize|
                self.node_ids().contains(node) <==> old(self).node_ids().contains(node) || node
                    == node_index by {
                assert(bit_set_in(self.node_bits())(node) == (bit_set_in(before)(node) || node
                    == node_index));
            }
        }
    }

    /// The edges follow the nodes: this method is not to be called.
    fn enable_edge(&mut self, _edge_index: usize) {
    }

    fn disable_node(&mut self, node_index: usize)
        ensures
            final(self).parent() == old(self).parent(),
            final(self).node_bits() == old(self).node_bits().update(node_index as int, false),
    {
        let ghost before = self.node_bits();
        bits_set(&mut self.present_nodes, node_index, false);
        proof {
            assert forall|node: usize| #[trigger]
                bit_set_at(bits_of(self.present_nodes), node) implies self.parent_graph.node_ids().contains(
                node,
            ) by {
                assert(bit_set_at(before, node));
            }
            lemma_kept_entries(self.parent().node_ids(), bit_set_in(before));
            lemma_kept_entries(self.parent().node_ids(), bit_set_in(self.node_bits()));
            assert forall|node: usize|
                self.node_ids().contains(node) <==> old(self).node_ids().contains(node) && node
                    != node_index by {
                assert(bit_set_in(self.node_bits())(node) == (bit_set_in(before)(node) && node
                    != node_index));
            }
        }
    }

    /// The edges follow the nodes: this method is not to be called.
    fn disable_edge(&mut self, _edge_index: usize) {
    }
}

} // verus!
