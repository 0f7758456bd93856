//! A subgraph implementation that allows to combine multiple subgraphs into one if they are totally ordered by the subset relation.
//!
//! This subgraph only allows to enable or disable nodes,
//! and edges are automatically contained if their endpoints exist.
use crate::implementation::subgraphs::filter_iterators::{
    kept, lemma_kept_entries, lemma_kept_increasing, lemma_kept_step,
};
use crate::implementation::subgraphs::incremental_subgraph::{
    empty_lists, present_at, present_in, repeated,
};
use crate::interface::{Edge, GraphBase, ImmutableGraphContainer, SubgraphBase};
use vstd::prelude::*;

verus! {

/// The predicate that holds of the edges of the graph whose endpoints both
/// have a step in the list that is not after `current_step`.
pub open spec fn joins_present<Graph: ImmutableGraphContainer>(
    graph: &Graph,
    steps: Seq<usize>,
    current_step: usize,
) -> spec_fn(usize) -> bool {
    |edge: usize|
        present_at(steps, current_step, graph.endpoints(edge).from_node) && present_at(
            steps,
            current_step,
            graph.endpoints(edge).to_node,
        )
}

/// A subgraph that stores the presence or absence of a node using integers.
///
/// Additionally, this subgraph has a current step that can be altered.
/// Nodes are added with that step, and only nodes with a step lower or equal to the current one are counted as present.
/// This allows to combine multiple subgraphs into one, if they are totally ordered by the subset relation.
///
/// In this variant of the incremental subgraph, edges are part of a subgraph if their endpoints are part of the subgraph.
pub struct InducedIncrementalSubgraph<'a, Graph> {
    parent_graph: &'a Graph,
    present_nodes: Vec<usize>,
    new_nodes: Vec<Vec<usize>>,
    current_step: usize,
}

impl<'a, Graph: ImmutableGraphContainer> InducedIncrementalSubgraph<'a, Graph> {
    /// The graph of which this is a subgraph.
    pub closed spec fn parent(&self) -> &Graph {
        self.parent_graph
    }

    /// For each node index the step in which the node was added, or the
    /// largest number if it was not added.
    pub closed spec fn node_steps(&self) -> Seq<usize> {
        self.present_nodes@
    }

    /// The current step.
    pub closed spec fn step(&self) -> usize {
        self.current_step
    }

    /// The number of incremental steps.
    pub closed spec fn step_count(&self) -> nat {
        self.new_nodes@.len()
    }

    /// The nodes that were added in the given step, in the order in which they were added.
    pub closed spec fn nodes_of_step(&self, step: int) -> Seq<usize> {
        self.new_nodes@[step]@
    }

    /// The invariant: the parent is valid, the current step is not the
    /// largest number, and what was added is in the parent.
    pub closed spec fn well_formed(&self) -> bool {
        &&& self.parent_graph.valid()
        &&& self.current_step < usize::MAX
        &&& forall|node: usize|
            node < self.present_nodes@.len() && #[trigger] self.present_nodes@[node as int] < usize::MAX
                ==> self.parent_graph.node_ids().contains(node)
    }

    /// Create an incremental subgraph with the given amount of incremental steps.
    pub fn new_with_incremental_steps(graph: &'a Graph, incremental_steps: usize) -> (r: Self)
        requires
            graph.valid(),
        ensures
            r.well_formed(),
            r.parent() == graph,
            r.step() == 0,
            r.step_count() == incremental_steps,
            r.node_steps() == Seq::new(graph.node_ids().len(), |i: int| usize::MAX),
            forall|step: int| 0 <= step < incremental_steps ==> r.nodes_of_step(step).len() == 0,
    {
        let present_nodes = repeated(usize::MAX, graph.node_count());
        proof {
            assert(present_nodes@ =~= Seq::new(graph.node_ids().len(), |i: int| usize::MAX));
        }
        Self {
            parent_graph: graph,
            present_nodes,
            new_nodes: empty_lists(incremental_steps),
            current_step: 0,
        }
    }

    /// Set the current incremental step of the graph.
    pub fn set_current_step(&mut self, current_step: usize)
        requires
            old(self).well_formed(),
            current_step < old(self).step_count(),
        ensures
            final(self).well_formed(),
            final(self).step() == current_step,
            final(self).parent() == old(self).parent(),
            final(self).node_steps() == old(self).node_steps(),
            final(self).step_count() == old(self).step_count(),
            forall|step: int| final(self).nodes_of_step(step) == old(self).nodes_of_step(step),
    {
        // The number of the steps fits in `usize`, so the given step is not the largest number.
        let _steps: usize = self.new_nodes.len();
        self.current_step = current_step;
    }

    /// Return the nodes that are added in the current incremental step.
    pub fn new_nodes(&self) -> (r: &Vec<usize>)
        requires
            self.well_formed(),
            self.step() < self.step_count(),
        ensures
            r@ == self.nodes_of_step(self.step() as int),
    {
        &self.new_nodes[self.current_step]
    }

    /// Returns true if this node was added in the current step.
    pub fn is_new_node(&self, node_index: usize) -> (r: bool)
        requires
            node_index < self.node_steps().len(),
        ensures
            r == (self.node_steps()[node_index as int] == self.step()),
    {
        self.present_nodes[node_index] == self.current_step
    }

    /// Returns true if this node was removed in the current reverse step.
    pub fn is_newly_removed_node(&self, node_index: usize) -> (r: bool)
        requires
            self.well_formed(),
            node_index < self.node_steps().len(),
        ensures
            r == (self.node_steps()[node_index as int] == self.step() + 1),
    {
        self.present_nodes[node_index] == self.current_step + 1
    }

    /// Returns true if the node has a step that is not after the current one.
    fn is_present(&self, node_id: usize) -> (r: bool)
        ensures
            r == present_at(self.node_steps(), self.step(), node_id),
    {
        node_id < self.present_nodes.len() && self.present_nodes[node_id] <= self.current_step
    }
}

impl<Graph: GraphBase> GraphBase for InducedIncrementalSubgraph<'_, Graph> {
    type NodeData = Graph::NodeData;

    type EdgeData = Graph::EdgeData;
}

impl<Graph: SubgraphBase> SubgraphBase for InducedIncrementalSubgraph<'_, Graph> {
    type RootGraph = Graph::RootGraph;

    closed spec fn root_spec(&self) -> &Self::RootGraph {
        self.parent_graph.root_spec()
    }

    fn root(&self) -> (r: &Self::RootGraph) {
        self.parent_graph.root()
    }
}

impl<Graph: ImmutableGraphContainer> ImmutableGraphContainer for InducedIncrementalSubgraph<
    '_,
    Graph,
> {
    open spec fn valid(&self) -> bool {
        self.well_formed()
    }

    open spec fn node_ids(&self) -> Seq<usize> {
        kept(self.parent().node_ids(), present_in(self.node_steps(), self.step()))
    }

    open spec fn edge_ids(&self) -> Seq<usize> {
        kept(self.parent().edge_ids(), joins_present(self.parent(), self.node_steps(), self.step()))
    }

    open spec fn node_bound(&self) -> nat {
        self.parent().node_bound()
    }

    open spec fn endpoints(&self, edge_id: usize) -> Edge<usize> {
        self.parent().endpoints(edge_id)
    }

    open spec fn node_data_spec(&self, node_id: usize) -> Graph::NodeData {
        self.parent().node_data_spec(node_id)
    }

    open spec fn edge_data_spec(&self, edge_id: usize) -> Graph::EdgeData {
        self.parent().edge_data_spec(edge_id)
    }

    proof fn lemma_ids(&self) {
        let keep_node = present_in(self.node_steps(), self.step());
        self.parent().lemma_ids();
        lemma_kept_increasing(self.parent().node_ids(), keep_node);
        lemma_kept_increasing(
            self.parent().edge_ids(),
            joins_present(self.parent(), self.node_steps(), self.step()),
        );
        lemma_kept_entries(self.parent().node_ids(), keep_node);
        assert forall|i: int| 0 <= i < self.node_ids().len() implies #[trigger] self.node_ids()[i]
            < self.node_bound() by {
            let node = self.node_ids()[i];
            assert(self.node_ids().contains(node));
            assert(self.parent().node_ids().contains(node));
            let j = choose|j: int|
                0 <= j < self.parent().node_ids().len() && self.parent().node_ids()[j] == node;
            assert(self.parent().node_ids()[j] < self.parent().node_bound());
        }
    }

    fn node_indices(&self) -> (r: Vec<usize>) {
        let ghost keep = present_in(self.node_steps(), self.step());
        let list = self.parent_graph.node_indices();
        let mut r: Vec<usize> = Vec::new();
        let mut i: usize = 0;
        proof {
            assert(list@.subrange(0, list@.len() as int) =~= list@);
        }
        while i < list.len()
            invariant
                i <= list@.len(),
                keep == present_in(self.node_steps(), self.step()),
                r@ + kept(list@.subrange(i as int, list@.len() as int), keep) == kept(list@, keep),
            decreases list@.len() - i,
        {
            let index = list[i];
            proof {
                lemma_kept_step(list@, keep, i as int);
                let rest = kept(list@.subrange(i + 1, list@.len() as int), keep);
                assert(r@ + (seq![index] + rest) =~= r@.push(index) + rest);
            }
            if self.is_present(index) {
                r.push(index);
            }
            i += 1;
        }
        proof {
            assert(r@ + Seq::<usize>::empty() =~= r@);
        }
        r
    }

    fn edge_indices(&self) -> (r: Vec<usize>) {
        let ghost keep = joins_present(self.parent(), self.node_steps(), self.step());
        let list = self.parent_graph.edge_indices();
        let mut r: Vec<usize> = Vec::new();
        let mut i: usize = 0;
        proof {
            assert(list@.subrange(0, list@.len() as int) =~= list@);
        }
        while i < list.len()
            invariant
                i <= list@.len(),
                self.well_formed(),
                list@ == self.parent().edge_ids(),
                keep == joins_present(self.parent(), self.node_steps(), self.step()),
                r@ + kept(list@.subrange(i as int, list@.len() as int), keep) == kept(list@, keep),
            decreases list@.len() - i,
        {
            let index = list[i];
            proof {
                lemma_kept_step(list@, keep, i as int);
                let rest = kept(list@.subrange(i + 1, list@.len() as int), keep);
                assert(r@ + (seq![index] + rest) =~= r@.push(index) + rest);
                assert(self.parent().edge_ids().contains(list@[i as int]));
            }
            let endpoints = self.parent_graph.edge_endpoints(index);
            if self.is_present(endpoints.from_node) && self.is_present(endpoints.to_node) {
                r.push(index);
            }
            i += 1;
        }
        proof {
            assert(r@ + Seq::<usize>::empty() =~= r@);
        }
        r
    }

    fn contains_node_index(&self, node_id: usize) -> (r: bool) {
        proof {
            let keep = present_in(self.node_steps(), self.step());
            lemma_kept_entries(self.parent().node_ids(), keep);
            assert(self.node_ids().contains(node_id) <==> self.parent().node_ids().contains(node_id)
                && keep(node_id));
            if present_at(self.node_steps(), self.step(), node_id) {
                assert(self.present_nodes@[node_id as int] < usize::MAX);
            }
        }
        self.is_present(node_id)
    }

    fn contains_edge_index(&self, edge_id: usize) -> (r: bool) {
        proof {
            let keep = joins_present(self.parent(), self.node_steps(), self.step());
            lemma_kept_entries(self.parent().edge_ids(), keep);
            assert(self.edge_ids().contains(edge_id) <==> self.parent().edge_ids().contains(edge_id)
                && keep(edge_id));
        }
        if !self.parent_graph.contains_edge_index(edge_id) {
            return false;
        }
        let endpoints = self.parent_graph.edge_endpoints(edge_id);
        self.is_present(endpoints.from_node) && self.is_present(endpoints.to_node)
    }

    fn node_count(&self) -> (r: usize) {
        self.node_indices().len()
    }

    fn edge_count(&self) -> (r: usize) {
        self.edge_indices().len()
    }

    fn node_data(&self, node_id: usize) -> (r: &Graph::NodeData) {
        proof {
            lemma_kept_entries(self.parent().node_ids(), present_in(self.node_steps(), self.step()));
        }
        self.parent_graph.node_data(node_id)
    }

    fn edge_data(&self, edge_id: usize) -> (r: &Graph::EdgeData) {
        proof {
            lemma_kept_entries(
                self.parent().edge_ids(),
                joins_present(self.parent(), self.node_steps(), self.step()),
            );
        }
        self.parent_graph.edge_data(edge_id)
    }

    fn edge_endpoints(&self, edge_id: usize) -> (r: Edge<usize>) {
        proof {
            lemma_kept_entries(
                self.parent().edge_ids(),
                joins_present(self.parent(), self.node_steps(), self.step()),
            );
        }
        self.parent_graph.edge_endpoints(edge_id)
    }
}

} // verus!
