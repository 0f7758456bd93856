//! A subgraph implementation that allows to combine multiple subgraphs into one if they are totally ordered by the subset relation.
use crate::implementation::subgraphs::filter_iterators::{
    kept, lemma_kept_entries, lemma_kept_increasing, lemma_kept_step, lemma_neighbors_in,
    neighbors_in, FilterNeighborIterator,
};
use crate::interface::{
    edges_leading_to, Edge, GraphBase, ImmutableGraphContainer, MutableSubgraph, NavigableGraph,
    Neighbor, SubgraphBase,
};
use vstd::prelude::*;

verus! {

/// True if the index has a step in the list that is not after `current_step`.
pub open spec fn present_at(steps: Seq<usize>, current_step: usize, index: usize) -> bool {
    index < steps.len() && steps[index as int] <= current_step
}

/// The predicate that holds of the indices that have a step in the list that
/// is not after `current_step`.
pub open spec fn present_in(steps: Seq<usize>, current_step: usize) -> spec_fn(usize) -> bool {
    |index: usize| present_at(steps, current_step, index)
}

/// A vector of the given length that holds the given value at each place.
pub fn repeated(value: usize, len: usize) -> (r: Vec<usize>)
    ensures
        r@.len() == len,
        forall|i: int| 0 <= i < len ==> #[trigger] r@[i] == value,
{
    let mut r: Vec<usize> = Vec::new();
    let mut i: usize = 0;
    while i < len
        invariant
            i <= len,
            r@.len() == i,
            forall|j: int| 0 <= j < i ==> #[trigger] r@[j] == value,
        decreases len - i,
    {
        r.push(value);
        i += 1;
    }
    r
}

/// A vector of the given length that holds an empty vector at each place.
pub fn empty_lists(len: usize) -> (r: Vec<Vec<usize>>)
    ensures
        r@.len() == len,
        forall|i: int| 0 <= i < len ==> (#[trigger] r@[i])@.len() == 0,
{
    let mut r: Vec<Vec<usize>> = Vec::new();
    let mut i: usize = 0;
    while i < len
        invariant
            i <= len,
            r@.len() == i,
            forall|j: int| 0 <= j < i ==> (#[trigger] r@[j])@.len() == 0,
        decreases len - i,
    {
        r.push(Vec::new());
        i += 1;
    }
    r
}

/// The indices of the list that the predicate keeps.
pub fn kept_indices<Graph: ImmutableGraphContainer>(
    list: Vec<usize>,
    steps: &Vec<usize>,
    current_step: usize,
) -> (r: Vec<usize>)
    ensures
        r@ == kept(list@, present_in(steps@, current_step)),
{
    let ghost keep = present_in(steps@, current_step);
    let mut r: Vec<usize> = Vec::new();
    let mut i: usize = 0;
    proof {
        assert(list@.subrange(0, list@.len() as int) =~= list@);
    }
    while i < list.len()
        invariant
            i <= list@.len(),
            keep == present_in(steps@, current_step),
            r@ + kept(list@.subrange(i as int, list@.len() as int), keep) == kept(list@, keep),
        decreases list@.len() - i,
    {
        let index = list[i];
        proof {
            lemma_kept_step(list@, keep, i as int);
            let rest = kept(list@.subrange(i + 1, list@.len() as int), keep);
            assert(r@ + (seq![index] + rest) =~= r@.push(index) + rest);
        }
        if index < steps.len() && steps[index] <= current_step {
            r.push(index);
        }
        i += 1;
    }
    proof {
        assert(r@ + Seq::<usize>::empty() =~= r@);
    }
    r
}

/// A subgraph that stores the presence or absence of a node or edge using integers.
///
/// Additionally, this subgraph has a current step that can be altered.
/// Nodes and edges are added with that step, and only nodes and edges with a step lower or equal to the current one are counted as present.
/// This allows to combine multiple subgraphs into one, if they are totally ordered by the subset relation.
pub struct IncrementalSubgraph<'a, Graph> {
    parent_graph: &'a Graph,
    present_nodes: Vec<usize>,
    present_edges: Vec<usize>,
    new_nodes: Vec<Vec<usize>>,
    new_edges: Vec<Vec<usize>>,
    current_step: usize,
}

impl<'a, Graph: ImmutableGraphContainer> IncrementalSubgraph<'a, Graph> {
    /// The graph of which this is a subgraph.
    pub closed spec fn parent(&self) -> &Graph {
        self.parent_graph
    }

    /// For each node index the step in which the node was added, or the
    /// largest number if it was not added.
    pub closed spec fn node_steps(&self) -> Seq<usize> {
        self.present_nodes@
    }

    /// For each edge index the step in which the edge was added, or the
    /// largest number if it was not added.
    pub closed spec fn edge_steps(&self) -> Seq<usize> {
        self.present_edges@
    }

    /// The current step.
    pub closed spec fn step(&self) -> usize {
        self.current_step
    }

    /// The number of incremental steps.
    pub closed spec fn step_count(&self) -> nat {
        self.new_nodes@.len()
    }

    /// The nodes that were added in the given step, in the order in which they were added.
    pub closed spec fn nodes_of_step(&self, step: int) -> Seq<usize> {
        self.new_nodes@[step]@
    }

    /// The edges that were added in the given step, in the order in which they were added.
    pub closed spec fn edges_of_step(&self, step: int) -> Seq<usize> {
        self.new_edges@[step]@
    }

    /// The invariant: the parent is valid, the current step is not the
    /// largest number, there is a list of new nodes and one of new edges for
    /// each step, and what was added is in the parent.
    pub closed spec fn well_formed(&self) -> bool {
        &&& self.parent_graph.valid()
        &&& self.current_step < usize::MAX
        &&& self.new_nodes@.len() == self.new_edges@.len()
        &&& forall|node: usize|
            node < self.present_nodes@.len() && #[trigger] self.present_nodes@[node as int] < usize::MAX
                ==> self.parent_graph.node_ids().contains(node)
        &&& forall|edge: usize|
            edge < self.present_edges@.len() && #[trigger] self.present_edges@[edge as int] < usize::MAX
                ==> self.parent_graph.edge_ids().contains(edge)
    }

    /// Create an incremental subgraph with the given amount of incremental steps.
    pub fn new_with_incremental_steps(graph: &'a Graph, incremental_steps: usize) -> (r: Self)
        requires
            graph.valid(),
        ensures
            r.well_formed(),
            r.parent() == graph,
            r.step() == 0,
            r.step_count() == incremental_steps,
            r.node_steps() == Seq::new(graph.node_ids().len(), |i: int| usize::MAX),
            r.edge_steps() == Seq::new(graph.edge_ids().len(), |i: int| usize::MAX),
            forall|step: int| 0 <= step < incremental_steps
                ==> r.nodes_of_step(step).len() == 0 && r.edges_of_step(step).len() == 0,
    {
        let present_nodes = repeated(usize::MAX, graph.node_count());
        let present_edges = repeated(usize::MAX, graph.edge_count());
        proof {
            assert(present_nodes@ =~= Seq::new(graph.node_ids().len(), |i: int| usize::MAX));
            assert(present_edges@ =~= Seq::new(graph.edge_ids().len(), |i: int| usize::MAX));
        }
        Self {
            parent_graph: graph,
            present_nodes,
            present_edges,
            new_nodes: empty_lists(incremental_steps),
            new_edges: empty_lists(incremental_steps),
            current_step: 0,
        }
    }

    /// Set the current incremental step of the graph.
    pub fn set_current_step(&mut self, current_step: usize)
        requires
            old(self).well_formed(),
            current_step < old(self).step_count(),
        ensures
            final(self).well_formed(),
            final(self).step() == current_step,
            final(self).parent() == old(self).parent(),
            final(self).node_steps() == old(self).node_steps(),
            final(self).edge_steps() == old(self).edge_steps(),
            final(self).step_count() == old(self).step_count(),
            forall|step: int| final(self).nodes_of_step(step) == old(self).nodes_of_step(step)
                && final(self).edges_of_step(step) == old(self).edges_of_step(step),
    {
        // The number of the steps fits in `usize`, so the given step is not the largest number.
        let _steps: usize = self.new_nodes.len();
        self.current_step = current_step;
    }

    /// Return the nodes that are added in the current incremental step.
    pub fn new_nodes(&self) -> (r: &Vec<usize>)
        requires
            self.well_formed(),
            self.step() < self.step_count(),
        ensures
            r@ == self.nodes_of_step(self.step() as int),
    {
        &self.new_nodes[self.current_step]
    }

    /// Return the edges that are added in the current incremental step.
    pub fn new_edges(&self) -> (r: &Vec<usize>)
        requires
            self.well_formed(),
            self.step() < self.step_count(),
        ensures
            r@ == self.edges_of_step(self.step() as int),
    {
        &self.new_edges[self.current_step]
    }

    /// Returns true if this node was added in the current step.
    pub fn is_new_node(&self, node_index: usize) -> (r: bool)
        requires
            node_index < self.node_steps().len(),
        ensures
            r == (self.node_steps()[node_index as int] == self.step()),
    {
        self.present_nodes[node_index] == self.current_step
    }

    /// Returns true if this edge was added in the current step.
    pub fn is_new_edge(&self, edge_index: usize) -> (r: bool)
        requires
            edge_index < self.edge_steps().len(),
        ensures
            r == (self.edge_steps()[edge_index as int] == self.step()),
    {
        self.present_edges[edge_index] == self.current_step
    }

    /// Returns true if this node was removed in the current reverse step.
    pub fn is_newly_removed_node(&self, node_index: usize) -> (r: bool)
        requires
            self.well_formed(),
            node_index < self.node_steps().len(),
        ensures
            r == (self.node_steps()[node_index as int] == self.step() + 1),
    {
        self.present_nodes[node_index] == self.current_step + 1
    }

    /// Returns true if this edge was removed in the current reverse step.
    pub fn is_newly_removed_edge(&self, edge_index: usize) -> (r: bool)
        requires
            self.well_formed(),
            edge_index < self.edge_steps().len(),
        ensures
            r == (self.edge_steps()[edge_index as int] == self.step() + 1),
    {
        self.present_edges[edge_index] == self.current_step + 1
    }
}

impl<Graph: GraphBase> GraphBase for IncrementalSubgraph<'_, Graph> {
    type NodeData = Graph::NodeData;

    type EdgeData = Graph::EdgeData;
}

impl<Graph: SubgraphBase> SubgraphBase for IncrementalSubgraph<'_, Graph> {
    type RootGraph = Graph::RootGraph;

    closed spec fn root_spec(&self) -> &Self::RootGraph {
        self.parent_graph.root_spec()
    }

    fn root(&self) -> (r: &Self::RootGraph) {
        self.parent_graph.root()
    }
}

impl<Graph: ImmutableGraphContainer> ImmutableGraphContainer for IncrementalSubgraph<'_, Graph> {
    open spec fn valid(&self) -> bool {
        self.well_formed()
    }

    open spec fn node_ids(&self) -> Seq<usize> {
        kept(
            self.parent().node_ids(),
            present_in(self.node_steps(), self.step()),
        )
    }

    open spec fn edge_ids(&self) -> Seq<usize> {
        kept(
            self.parent().edge_ids(),
            present_in(self.edge_steps(), self.step()),
        )
    }

    open spec fn node_bound(&self) -> nat {
        self.parent().node_bound()
    }

    open spec fn endpoints(&self, edge_id: usize) -> Edge<usize> {
        self.parent().endpoints(edge_id)
    }

    open spec fn node_data_spec(&self, node_id: usize) -> Graph::NodeData {
        self.parent().node_data_spec(node_id)
    }

    open spec fn edge_data_spec(&self, edge_id: usize) -> Graph::EdgeData {
        self.parent().edge_data_spec(edge_id)
    }

    proof fn lemma_ids(&self) {
        let keep_node = present_in(self.node_steps(), self.step());
        let keep_edge = present_in(self.edge_steps(), self.step());
        self.parent().lemma_ids();
        lemma_kept_increasing(self.parent().node_ids(), keep_node);
        lemma_kept_increasing(self.parent().edge_ids(), keep_edge);
        lemma_kept_entries(self.parent().node_ids(), keep_node);
        assert forall|i: int| 0 <= i < self.node_ids().len() implies #[trigger] self.node_ids()[i]
            < self.node_bound() by {
            let node = self.node_ids()[i];
            assert(self.node_ids().contains(node));
            assert(self.parent().node_ids().contains(node));
            let j = choose|j: int|
                0 <= j < self.parent().node_ids().len() && self.parent().node_ids()[j] == node;
            assert(self.parent().node_ids()[j] < self.parent().node_bound());
        }
    }

    fn node_indices(&self) -> (r: Vec<usize>) {
        kept_indices::<Graph>(
            self.parent_graph.node_indices(),
            &self.present_nodes,
            self.current_step,
        )
    }

    fn edge_indices(&self) -> (r: Vec<usize>) {
        kept_indices::<Graph>(
            self.parent_graph.edge_indices(),
            &self.present_edges,
            self.current_step,
        )
    }

    fn contains_node_index(&self, node_id: usize) -> (r: bool) {
        proof {
            let keep = present_in(self.node_steps(), self.step());
            lemma_kept_entries(self.parent().node_ids(), keep);
            assert(self.node_ids().contains(node_id) <==> self.parent().node_ids().contains(node_id)
                && keep(node_id));
            if present_at(self.node_steps(), self.step(), node_id) {
                assert(self.present_nodes@[node_id as int] < usize::MAX);
            }
        }
        node_id < self.present_nodes.len() && self.present_nodes[node_id] <= self.current_step
    }

    fn contains_edge_index(&self, edge_id: usize) -> (r: bool) {
        proof {
            let keep = present_in(self.edge_steps(), self.step());
            lemma_kept_entries(self.parent().edge_ids(), keep);
            assert(self.edge_ids().contains(edge_id) <==> self.parent().edge_ids().contains(edge_id)
                && keep(edge_id));
            if present_at(self.edge_steps(), self.step(), edge_id) {
                assert(self.present_edges@[edge_id as int] < usize::MAX);
            }
        }
        edge_id < self.present_edges.len() && self.present_edges[edge_id] <= self.current_step
    }

    fn node_count(&self) -> (r: usize) {
        self.node_indices().len()
    }

    fn edge_count(&self) -> (r: usize) {
        self.edge_indices().len()
    }

    fn node_data(&self, node_id: usize) -> (r: &Graph::NodeData) {
        proof {
            lemma_kept_entries(
                self.parent().node_ids(),
                present_in(self.node_steps(), self.step()),
            );
        }
        self.parent_graph.node_data(node_id)
    }

    fn edge_data(&self, edge_id: usize) -> (r: &Graph::EdgeData) {
        proof {
            lemma_kept_entries(
                self.parent().edge_ids(),
                present_in(self.edge_steps(), self.step()),
            );
        }
        self.parent_graph.edge_data(edge_id)
    }

    fn edge_endpoints(&self, edge_id: usize) -> (r: Edge<usize>) {
        proof {
            lemma_kept_entries(
                self.parent().edge_ids(),
                present_in(self.edge_steps(), self.step()),
            );
        }
        self.parent_graph.edge_endpoints(edge_id)
    }
}

impl<Graph: NavigableGraph> NavigableGraph for IncrementalSubgraph<'_, Graph> {
    open spec fn out_list(&self, node_id: usize) -> Seq<Neighbor<usize, usize>> {
        neighbors_in(self, self.parent().out_list(node_id))
    }

    open spec fn in_list(&self, node_id: usize) -> Seq<Neighbor<usize, usize>> {
        neighbors_in(self, self.parent().in_list(node_id))
    }

    proof fn lemma_neighbors(&self, node_id: usize) {
        lemma_kept_entries(
            self.parent().node_ids(),
            present_in(self.node_steps(), self.step()),
        );
        self.parent().lemma_neighbors(node_id);
        lemma_neighbors_in(self, self.parent().out_list(node_id));
        lemma_neighbors_in(self, self.parent().in_list(node_id));
    }

    fn out_neighbors(&self, node_id: usize) -> (r: Vec<Neighbor<usize, usize>>) {
        proof {
            lemma_kept_entries(
                self.parent().node_ids(),
                present_in(self.node_steps(), self.step()),
            );
        }
        FilterNeighborIterator::new(self.parent_graph.out_neighbors(node_id), self).collect()
    }

    fn in_neighbors(&self, node_id: usize) -> (r: Vec<Neighbor<usize, usize>>) {
        proof {
            lemma_kept_entries(
                self.parent().node_ids(),
                present_in(self.node_steps(), self.step()),
            );
        }
        FilterNeighborIterator::new(self.parent_graph.in_neighbors(node_id), self).collect()
    }

    fn edges_between(&self, from_node_id: usize, to_node_id: usize) -> (r: Vec<usize>) {
        let neighbors = self.out_neighbors(from_node_id);
        edges_leading_to(&neighbors, to_node_id)
    }
}

impl<Graph: ImmutableGraphContainer + SubgraphBase> MutableSubgraph for IncrementalSubgraph<'_, Graph> {
    /// Nodes and edges can only be added to an incremental subgraph.
    open spec fn supports_removal(&self) -> bool {
        false
    }

    open spec fn can_change_node(&self, node_index: usize) -> bool {
        &&& self.step() < self.step_count()
        &&& node_index < self.node_steps().len()
        &&& self.parent().node_ids().contains(node_index)
        &&& !self.node_ids().contains(node_index)
    }

    open spec fn can_change_edge(&self, edge_index: usize) -> bool {
        &&& self.step() < self.step_count()
        &&& edge_index < self.edge_steps().len()
        &&& self.parent().edge_ids().contains(edge_index)
        &&& !self.edge_ids().contains(edge_index)
    }

    /// An incremental subgraph cannot be cleared: this method is not to be called.
    fn clear(&mut self) {
    }

    /// An incremental subgraph cannot be filled: this method is not to be called.
    fn fill(&mut self) {
    }

    fn enable_node(&mut self, node_index: usize)
        ensures
            final(self).edge_ids() == old(self).edge_ids(),
            final(self).parent() == old(self).parent(),
            final(self).step() == old(self).step(),
            final(self).step_count() == old(self).step_count(),
            final(self).node_steps() == old(self).node_steps().update(node_index as int, old(self).step()),
            final(self).nodes_of_step(old(self).step() as int) == old(self).nodes_of_step(
                old(self).step() as int,
            ).push(node_index),
    {
        self.new_nodes[self.current_step].push(node_index);
        self.present_nodes[node_index] = self.current_step;
        proof {
            let keep_before = present_in(old(self).node_steps(), old(self).step());
            let keep_after = present_in(self.node_steps(), self.step());
            lemma_kept_entries(self.parent().node_ids(), keep_before);
            lemma_kept_entries(self.parent().node_ids(), keep_after);
            assert forall|node: usize|
                self.node_ids().contains(node) <==> old(self).node_ids().contains(node) || node
                    == node_index by {
                assert(keep_after(node) == (keep_before(node) || node == node_index));
            }
            let keep_edge_before = present_in(old(self).edge_steps(), old(self).step());
            let keep_edge_after = present_in(self.edge_steps(), self.step());
            assert(keep_edge_before == keep_edge_after);
        }
    }

    fn enable_edge(&mut self, edge_index: usize)
        ensures
            final(self).parent() == old(self).parent(),
            final(self).step() == old(self).step(),
            final(self).step_count() == old(self).step_count(),
            final(self).edge_steps() == old(self).edge_steps().update(edge_index as int, old(self).step()),
            final(self).edges_of_step(old(self).step() as int) == old(self).edges_of_step(
                old(self).step() as int,
            ).push(edge_index),
    {
        self.new_edges[self.current_step].push(edge_index);
        self.present_edges[edge_index] = self.current_step;
        proof {
            let keep_before = present_in(old(self).edge_steps(), old(self).step());
            let keep_after = present_in(self.edge_steps(), self.step());
            lemma_kept_entries(self.parent().edge_ids(), keep_before);
            lemma_kept_entries(self.parent().edge_ids(), keep_after);
            assert forall|edge: usize|
                self.edge_ids().contains(edge) <==> old(self).edge_ids().contains(edge) || edge
                    == edge_index by {
                assert(keep_after(edge) == (keep_before(edge) || edge == edge_index));
            }
            let keep_node_before = present_in(old(self).node_steps(), old(self).step());
            let keep_node_after = present_in(self.node_steps(), self.step());
            assert(keep_node_before == keep_node_after);
        }
    }

    /// No node can be taken out of an incremental subgraph: this method is
    /// not to be called.
    fn disable_node(&mut self, _node_index: usize) {
    }

    /// No edge can be taken out of an incremental subgraph: this method is
    /// not to be called.
    fn disable_edge(&mut self, _edge_index: usize) {
    }
}

} // verus!
