//! Dijkstra's shortest path algorithm, built for many searches on one graph.
use crate::dijkstra::epoch_array_dijkstra_node_weight_array::EpochNodeWeightArray;
use crate::dijkstra::heap::{BinaryMinHeap, DijkstraHeap};
use crate::dijkstra::node_weight_array::{all_infinite, stored_value, NodeWeightArray};
use crate::dijkstra::performance_counters::{
    after_iterations, lemma_after_one_more, DijkstraPerformanceData,
};
use crate::dijkstra::shortest_paths::{
    is_distance, is_walk, lemma_finalize, lemma_light_walks_done, lemma_pop_exact, lemma_pop_stale,
    lemma_relax_improved, lemma_relax_kept, lemma_seeded, lemma_walk_basics, lemma_walk_extend,
    reachable, reachable_indices, walk_end, walk_weight, Arc, SearchState,
    WeightedGraph,
};
use crate::dijkstra::weight::{DijkstraWeight, DijkstraWeightedEdgeData};
use crate::implementation::petgraph_impl::PetGraph;
use crate::interface::{ImmutableGraphContainer, NavigableGraph, Neighbor, StaticGraph};
use std::marker::PhantomData;
use vstd::multiset::Multiset;
use vstd::prelude::*;

pub mod dijkstra_weight_implementations;
pub mod epoch_array_dijkstra_node_weight_array;
pub mod hashbrown_dijkstra_node_weight_array;
pub mod heap;
pub mod node_weight_array;
pub mod performance_counters;
pub mod shortest_paths;
pub mod weight;

verus! {

/// A Dijkstra implementation with a set of common optimisations.
pub type DefaultDijkstra<Graph, WeightType> = Dijkstra<
    Graph,
    WeightType,
    EpochNodeWeightArray<WeightType>,
    BinaryMinHeap<WeightType, usize>,
>;

/// A data structure that decides whether a given node index is a target of the current Dijkstra search.
pub trait DijkstraTargetMap {
    /// True if the data structure can be asked about the given node index.
    spec fn covers(&self, node_index: usize) -> bool;

    /// True if the given node index is a target.
    spec fn is_target_spec(&self, node_index: usize) -> bool;

    /// Returns true if the given node index is a target of the current Dijkstra search.
    fn is_target(&self, node_index: usize) -> (r: bool)
        requires
            self.covers(node_index),
        ensures
            r == self.is_target_spec(node_index),
    ;
}

impl DijkstraTargetMap for Vec<bool> {
    open spec fn covers(&self, node_index: usize) -> bool {
        node_index < self@.len()
    }

    open spec fn is_target_spec(&self, node_index: usize) -> bool {
        self@[node_index as int]
    }

    fn is_target(&self, node_index: usize) -> (r: bool) {
        self[node_index]
    }
}

impl DijkstraTargetMap for usize {
    open spec fn covers(&self, node_index: usize) -> bool {
        true
    }

    open spec fn is_target_spec(&self, node_index: usize) -> bool {
        *self == node_index
    }

    fn is_target(&self, node_index: usize) -> (r: bool) {
        *self == node_index
    }
}

/// The exhaustiveness of an execution of Dijkstra's algorithm.
/// This can be complete, or partial because of reaching performance limits.
///
/// Note that the `max_weight` parameter is not a performance limit, but a limit on the search space.
#[derive(Debug, Clone, Copy, PartialEq, Eq, Structural)]
pub enum DijkstraExhaustiveness {
    /// The search exhausted the search space.
    Complete,
    /// The search was aborted early because the node weight data structure grew too large.
    PartialNodeWeights,
    /// The search was aborted early because the heap grew too large.
    PartialHeap,
}

/// The final status of an execution of Dijkstra's algorithm.
#[derive(Debug, Clone, PartialEq, Eq)]
pub struct DijkstraStatus<DijkstraPerformance: DijkstraPerformanceData> {
    /// The exhaustiveness of the search.
    pub exhaustiveness: DijkstraExhaustiveness,
    /// The performance data collected during execution.
    pub performance_data: DijkstraPerformance,
}

/// The arc that a neighbor stands for: it leads to the neighbor's node and
/// has the weight of the neighbor's edge.
pub open spec fn arc_of<
    WeightType: DijkstraWeight,
    EdgeData: DijkstraWeightedEdgeData<WeightType>,
    Graph: StaticGraph<EdgeData = EdgeData>,
>(graph: &Graph, neighbor: Neighbor<usize, usize>) -> Arc {
    Arc {
        to: neighbor.node_id,
        weight: graph.edge_data_spec(neighbor.edge_id).weight_spec().value(),
    }
}

/// The graph as the search sees it: its nodes, each with an arc for each of
/// its outgoing neighbors, in their order.
pub open spec fn weighted_graph<
    WeightType: DijkstraWeight,
    EdgeData: DijkstraWeightedEdgeData<WeightType>,
    Graph: StaticGraph<EdgeData = EdgeData>,
>(graph: &Graph) -> WeightedGraph {
    WeightedGraph {
        out: Map::new(
            |node: usize| graph.node_ids().contains(node),
            |node: usize|
                graph.out_list(node).map_values(
                    |neighbor: Neighbor<usize, usize>|
                        arc_of::<WeightType, EdgeData, Graph>(graph, neighbor),
                ),
        ),
    }
}

/// A graph of the `petgraph` crate without negative edge weights is a graph
/// on which a search can run.
pub proof fn lemma_petgraph_searchable<NodeData, WeightType: DijkstraWeight>(
    graph: &PetGraph<NodeData, WeightType>,
)
    requires
        graph.valid(),
        forall|edge: usize| #[trigger]
            graph.edge_ids().contains(edge) ==> graph.edge_data_spec(edge).value() >= 0,
    ensures
        weighted_graph::<WeightType, WeightType, PetGraph<NodeData, WeightType>>(graph).well_formed(),
{
    let g = weighted_graph::<WeightType, WeightType, PetGraph<NodeData, WeightType>>(graph);
    assert forall|node: usize, i: int| #[trigger] g.has_arc(node, i) implies g.out[node][i].weight >= 0
        && g.has(g.out[node][i].to) by {
        graph.lemma_neighbors(node);
        graph.lemma_neighbors_contained(node);
        let neighbor = graph.out_list(node)[i];
        assert(graph.edge_ids().contains(neighbor.edge_id));
        assert(graph.node_ids().contains(neighbor.node_id));
    }
}

/// The state of a search with the given entries of the store and the heap.
pub open spec fn search_state<WeightType: DijkstraWeight>(
    entries: Map<int, WeightType>,
    heap: Multiset<(int, usize)>,
    done: Set<usize>,
    current: Option<(usize, int)>,
) -> SearchState {
    SearchState {
        inf: WeightType::infinity_value(),
        val: |node: usize| stored_value(entries, node as int),
        heap,
        done,
        current,
    }
}

/// The number of the outgoing neighbors that the first `count` nodes of the
/// graph have together.
pub open spec fn arc_count<Graph: NavigableGraph>(graph: &Graph, count: nat) -> nat
    decreases count,
{
    if count == 0 {
        0
    } else {
        arc_count(graph, (count - 1) as nat) + graph.out_list(graph.node_ids()[count - 1]).len()
    }
}

/// The number of the outgoing neighbors that those of the first `count` nodes
/// of the graph have together that are in the set.
pub open spec fn arc_count_of<Graph: NavigableGraph>(
    graph: &Graph,
    nodes: Set<usize>,
    count: nat,
) -> nat
    decreases count,
{
    if count == 0 {
        0
    } else {
        arc_count_of(graph, nodes, (count - 1) as nat) + (if nodes.contains(
            graph.node_ids()[count - 1],
        ) {
            graph.out_list(graph.node_ids()[count - 1]).len()
        } else {
            0
        })
    }
}

/// The nodes of a set have no more outgoing neighbors than all nodes.
pub proof fn lemma_arc_count_of_bounded<Graph: NavigableGraph>(
    graph: &Graph,
    nodes: Set<usize>,
    count: nat,
)
    ensures
        arc_count_of(graph, nodes, count) <= arc_count(graph, count),
    decreases count,
{
    if count > 0 {
        lemma_arc_count_of_bounded(graph, nodes, (count - 1) as nat);
    }
}

/// A node of the graph that enters a set brings its outgoing neighbors with it.
pub proof fn lemma_arc_count_of_insert<Graph: NavigableGraph>(
    graph: &Graph,
    nodes: Set<usize>,
    node: usize,
    count: nat,
)
    requires
        graph.valid(),
        count <= graph.node_ids().len(),
        !nodes.contains(node),
    ensures
        arc_count_of(graph, nodes.insert(node), count) == arc_count_of(graph, nodes, count) + (
        if exists|i: int| 0 <= i < count && graph.node_ids()[i] == node {
            graph.out_list(node).len()
        } else {
            0
        }),
    decreases count,
{
    if count > 0 {
        graph.lemma_ids();
        lemma_arc_count_of_insert(graph, nodes, node, (count - 1) as nat);
        let last = graph.node_ids()[count - 1];
        if last == node {
            assert forall|i: int| 0 <= i < count - 1 implies graph.node_ids()[i] != node by {
                assert(graph.node_ids()[i] < graph.node_ids()[count - 1]);
            }
        } else {
            assert((exists|i: int| 0 <= i < count && graph.node_ids()[i] == node) == (exists|i: int|
                0 <= i < count - 1 && graph.node_ids()[i] == node));
        }
    }
}

/// True if every entry of the store is the entry of a node to which a walk
/// leads from the source.
pub open spec fn entries_reachable<WeightType>(
    g: WeightedGraph,
    source: usize,
    entries: Map<int, WeightType>,
) -> bool {
    forall|node: int| #[trigger]
        entries.dom().contains(node) ==> 0 <= node <= usize::MAX && reachable(g, source, node as usize)
}

/// True if the node is a target that the search reports.
pub open spec fn reportable<TargetMap: DijkstraTargetMap>(
    targets: &TargetMap,
    source: usize,
    forbid_source_target: bool,
    node: usize,
) -> bool {
    targets.is_target_spec(node) && (!forbid_source_target || node != source)
}

/// True if the list holds an entry for the node.
pub open spec fn reported<WeightType>(distances: Seq<(usize, WeightType)>, node: usize) -> bool {
    exists|i: int| 0 <= i < distances.len() && (#[trigger] distances[i]).0 == node
}

/// True if every entry of the list holds a reportable target with its
/// distance from the source, which is not above the bound and below infinity.
pub open spec fn distances_exact<WeightType: DijkstraWeight, TargetMap: DijkstraTargetMap>(
    g: WeightedGraph,
    source: usize,
    targets: &TargetMap,
    forbid_source_target: bool,
    max_weight: int,
    distances: Seq<(usize, WeightType)>,
) -> bool {
    forall|i: int|
        0 <= i < distances.len() ==> {
            let entry = #[trigger] distances[i];
            &&& reportable(targets, source, forbid_source_target, entry.0)
            &&& is_distance(g, source, entry.0, entry.1.value())
            &&& entry.1.value() <= max_weight
            &&& entry.1.value() < WeightType::infinity_value()
        }
}

/// True if the distances of the list do not decrease, and no node comes twice.
pub open spec fn distances_ordered<WeightType: DijkstraWeight>(
    distances: Seq<(usize, WeightType)>,
) -> bool {
    forall|i: int, j: int|
        0 <= i < j < distances.len() ==> (#[trigger] distances[i]).1.value() <= (
        #[trigger] distances[j]).1.value() && distances[i].0 != distances[j].0
}

/// True if every reportable target that the list does not hold is no nearer
/// to the source than the targets that it holds.
pub open spec fn distances_nearest<WeightType: DijkstraWeight, TargetMap: DijkstraTargetMap>(
    g: WeightedGraph,
    source: usize,
    targets: &TargetMap,
    forbid_source_target: bool,
    distances: Seq<(usize, WeightType)>,
) -> bool {
    forall|arcs: Seq<Arc>, i: int|
        #![trigger is_walk(g, source, arcs), distances[i]]
        is_walk(g, source, arcs) && reportable(
            targets,
            source,
            forbid_source_target,
            walk_end(source, arcs),
        ) && !reported(distances, walk_end(source, arcs)) && 0 <= i < distances.len()
            ==> distances[i].1.value() <= walk_weight(arcs)
}

/// True if the list holds every reportable target that a walk from the source
/// reaches with a weight that is below infinity and not above the bound.
pub open spec fn distances_complete<WeightType: DijkstraWeight, TargetMap: DijkstraTargetMap>(
    g: WeightedGraph,
    source: usize,
    targets: &TargetMap,
    forbid_source_target: bool,
    max_weight: int,
    distances: Seq<(usize, WeightType)>,
) -> bool {
    forall|arcs: Seq<Arc>| #[trigger]
        is_walk(g, source, arcs) && reportable(
            targets,
            source,
            forbid_source_target,
            walk_end(source, arcs),
        ) && walk_weight(arcs) <= max_weight && walk_weight(arcs) < WeightType::infinity_value()
            ==> reported(distances, walk_end(source, arcs))
}

/// True if the list holds an entry for the node with the distance `d`.
pub open spec fn reported_with<WeightType: DijkstraWeight>(
    distances: Seq<(usize, WeightType)>,
    node: usize,
    d: int,
) -> bool {
    exists|j: int|
        0 <= j < distances.len() && (#[trigger] distances[j]).0 == node && distances[j].1.value() == d
}

/// The nodes of the entries of a list of distances.
pub open spec fn nodes_of<WeightType>(distances: Seq<(usize, WeightType)>) -> Seq<usize> {
    distances.map_values(|entry: (usize, WeightType)| entry.0)
}

/// Searching twice gives the same: each list of distances that a search can
/// return which has run to its end, and was not ended by the number of its
/// targets, holds every node of another such list, with the same distance.
pub proof fn lemma_complete_searches_agree<WeightType: DijkstraWeight, TargetMap: DijkstraTargetMap>(
    g: WeightedGraph,
    source: usize,
    targets: &TargetMap,
    forbid_source_target: bool,
    max_weight: int,
    first: Seq<(usize, WeightType)>,
    second: Seq<(usize, WeightType)>,
)
    requires
        distances_exact(g, source, targets, forbid_source_target, max_weight, first),
        distances_exact(g, source, targets, forbid_source_target, max_weight, second),
        distances_complete(g, source, targets, forbid_source_target, max_weight, second),
    ensures
        forall|i: int|
            0 <= i < first.len() ==> reported_with(
                second,
                (#[trigger] first[i]).0,
                first[i].1.value(),
            ),
{
    assert forall|i: int| 0 <= i < first.len() implies reported_with(
        second,
        (#[trigger] first[i]).0,
        first[i].1.value(),
    ) by {
        let node = first[i].0;
        let d = first[i].1.value();
        assert(is_distance(g, source, node, d));
        let walk = choose|arcs: Seq<Arc>| #[trigger]
            is_walk(g, source, arcs) && walk_end(source, arcs) == node && walk_weight(arcs) == d;
        assert(reported(second, walk_end(source, walk)));
        let j = choose|j: int| 0 <= j < second.len() && (#[trigger] second[j]).0 == node;
        let other = second[j].1.value();
        assert(is_distance(g, source, node, other));
        let other_walk = choose|arcs: Seq<Arc>| #[trigger]
            is_walk(g, source, arcs) && walk_end(source, arcs) == node && walk_weight(arcs) == other;
        assert(walk_weight(other_walk) >= d);
        assert(walk_weight(walk) >= other);
        assert(second[j].0 == node && second[j].1.value() == d);
    }
}

/// Two lists of distances that hold each other's nodes, and no node twice,
/// have the same length.
pub proof fn lemma_same_nodes_same_length<WeightType: DijkstraWeight>(
    first: Seq<(usize, WeightType)>,
    second: Seq<(usize, WeightType)>,
)
    requires
        distances_ordered(first),
        distances_ordered(second),
        forall|i: int| 0 <= i < first.len() ==> reported(second, (#[trigger] first[i]).0),
        forall|j: int| 0 <= j < second.len() ==> reported(first, (#[trigger] second[j]).0),
    ensures
        first.len() == second.len(),
{
    let a = nodes_of(first);
    let b = nodes_of(second);
    assert(a.no_duplicates()) by {
        assert forall|i: int, j: int| 0 <= i < a.len() && 0 <= j < a.len() && i != j implies a[i]
            != a[j] by {
            if i < j {
                assert(first[i].0 != first[j].0);
            } else {
                assert(first[j].0 != first[i].0);
            }
        }
    }
    assert(b.no_duplicates()) by {
        assert forall|i: int, j: int| 0 <= i < b.len() && 0 <= j < b.len() && i != j implies b[i]
            != b[j] by {
            if i < j {
                assert(second[i].0 != second[j].0);
            } else {
                assert(second[j].0 != second[i].0);
            }
        }
    }
    a.unique_seq_to_set();
    b.unique_seq_to_set();
    assert(a.to_set() =~= b.to_set()) by {
        assert forall|node: usize| a.to_set().contains(node) <==> b.to_set().contains(node) by {
            if a.contains(node) {
                let i = choose|i: int| 0 <= i < a.len() && a[i] == node;
                assert(reported(second, first[i].0));
                let j = choose|j: int| 0 <= j < second.len() && (#[trigger] second[j]).0 == node;
                assert(b[j] == node);
            }
            if b.contains(node) {
                let j = choose|j: int| 0 <= j < b.len() && b[j] == node;
                assert(reported(first, second[j].0));
                let i = choose|i: int| 0 <= i < first.len() && (#[trigger] first[i]).0 == node;
                assert(a[i] == node);
            }
        }
    }
}

/// A set of integers between zero and a limit has no more elements than the
/// limit says, and is finite.
pub proof fn lemma_bounded_entries(nodes: Set<int>, limit: int)
    requires
        forall|node: int| nodes.contains(node) ==> 0 <= node < limit,
    ensures
        nodes.finite(),
        nodes.len() <= limit || limit < 0,
{
    if limit >= 0 {
        let all = vstd::set_lib::set_int_range(0, limit);
        vstd::set_lib::lemma_int_range(0, limit);
        assert(nodes.subset_of(all));
        vstd::set_lib::lemma_len_subset(nodes, all);
    } else {
        assert(nodes =~= Set::<int>::empty());
    }
}

/// A set of node indices below a bound has no more elements than the bound.
pub proof fn lemma_bounded_set(nodes: Set<usize>, bound: nat)
    requires
        nodes.finite(),
        forall|node: usize| nodes.contains(node) ==> node < bound,
    ensures
        nodes.len() <= bound,
    decreases bound,
{
    if bound == 0 {
        assert(nodes =~= Set::<usize>::empty());
    } else {
        let top = (bound - 1) as usize;
        if bound - 1 > usize::MAX {
            lemma_bounded_set(nodes, (bound - 1) as nat);
        } else {
            lemma_bounded_set(nodes.remove(top), (bound - 1) as nat);
        }
    }
}

/// Data structure for Dijkstra's shortest path algorithm.
///
/// This variant of Dijkstra's algorithm supports only computing the length of a shortest path, and not the shortest path itself.
/// Therefore it does not need an array of back pointers for each node, saving a bit of memory.
pub struct Dijkstra<Graph, WeightType, NodeWeights, Heap> {
    heap: Heap,
    node_weights: NodeWeights,
    graph: PhantomData<Graph>,
    _weight_type_phantom: PhantomData<WeightType>,
}

impl<
    WeightType: DijkstraWeight,
    EdgeData: DijkstraWeightedEdgeData<WeightType>,
    Graph: StaticGraph<EdgeData = EdgeData>,
    NodeWeights: NodeWeightArray<WeightType>,
    Heap: DijkstraHeap<WeightType, usize>,
> Dijkstra<Graph, WeightType, NodeWeights, Heap> {
    /// True if the data structures are ready for a search: the heap has no
    /// entry, and every node has the weight infinity.
    pub closed spec fn ready(&self) -> bool {
        &&& self.heap.valid()
        &&& self.heap.contents() == Multiset::<(int, usize)>::empty()
        &&& self.node_weights.valid()
        &&& all_infinite(self.node_weights.entries())
        &&& NodeWeights::empties_on_clear() ==> self.node_weights.entries() == Map::<
            int,
            WeightType,
        >::empty()
    }

    /// The tentative distance that the store of the node weights gives for a node.
    pub closed spec fn tentative_distance(&self, node: int) -> int {
        stored_value(self.node_weights.entries(), node)
    }

    /// Data structures that are ready for a search are empty: the heap holds
    /// no entry, every node is at infinity, and a store that empties when it
    /// is cleared holds no entry.
    pub proof fn lemma_ready_is_empty(&self)
        requires
            self.ready(),
        ensures
            self.heap_entries() == 0,
            forall|node: int| #[trigger] self.tentative_distance(node) == WeightType::infinity_value(),
            NodeWeights::empties_on_clear() ==> self.stored_entries() == 0,
    {
        assert forall|node: int| #[trigger]
            self.tentative_distance(node) == WeightType::infinity_value() by {
            assert(stored_value(self.node_weights.entries(), node) == WeightType::infinity_value());
        }
    }

    /// The node indices below this limit can take part in a search.
    pub closed spec fn node_limit(&self) -> int {
        self.node_weights.node_limit()
    }

    /// The number of entries that the store of the node weights holds.
    pub closed spec fn stored_entries(&self) -> nat {
        self.node_weights.entries().dom().len()
    }

    /// The number of entries that the heap holds.
    pub closed spec fn heap_entries(&self) -> nat {
        self.heap.contents().len()
    }

    /// True if a search can run on the graph: the graph is valid, no edge has a
    /// negative weight, and the neighbors of its nodes are nodes of the graph.
    pub open spec fn searchable(graph: &Graph) -> bool {
        graph.valid() && weighted_graph::<WeightType, EdgeData, Graph>(graph).well_formed()
    }

    /// Create the data structures for the given graph.
    pub fn new(graph: &Graph) -> (r: Self)
        requires
            graph.valid(),
        ensures
            r.ready(),
            r.node_limit() >= graph.node_ids().len(),
    {
        Self {
            heap: Heap::new_empty(),
            node_weights: NodeWeights::new(graph.node_count()),
            graph: PhantomData,
            _weight_type_phantom: PhantomData,
        }
    }

    /// Relaxes the outgoing edges of a node that was taken from the heap with
    /// its distance: each neighbor that is nearer over the node than it was
    /// gets the new tentative distance and an entry in the heap with it. No
    /// tentative distance increases.
    fn relax_neighbors(
        &mut self,
        graph: &Graph,
        node_index: usize,
        weight: WeightType,
        Ghost(source): Ghost<usize>,
        Ghost(done): Ghost<Set<usize>>,
    )
        requires
            Self::searchable(graph),
            graph.node_bound() <= old(self).node_weights.node_limit(),
            old(self).heap.valid(),
            old(self).node_weights.valid(),
            search_state(
                old(self).node_weights.entries(),
                old(self).heap.contents(),
                done,
                Some((node_index, 0int)),
            ).consistent(weighted_graph::<WeightType, EdgeData, Graph>(graph), source),
            weight.value() == stored_value(old(self).node_weights.entries(), node_index as int),
        ensures
            entries_reachable(
                weighted_graph::<WeightType, EdgeData, Graph>(graph),
                source,
                old(self).node_weights.entries(),
            ) ==> entries_reachable(
                weighted_graph::<WeightType, EdgeData, Graph>(graph),
                source,
                final(self).node_weights.entries(),
            ),
            final(self).heap.valid(),
            final(self).node_weights.valid(),
            final(self).node_weights.node_limit() == old(self).node_weights.node_limit(),
            search_state(
                final(self).node_weights.entries(),
                final(self).heap.contents(),
                done.insert(node_index),
                None,
            ).consistent(weighted_graph::<WeightType, EdgeData, Graph>(graph), source),
            weight.value() == stored_value(final(self).node_weights.entries(), node_index as int),
            forall|node: int| #[trigger]
                stored_value(final(self).node_weights.entries(), node) <= stored_value(
                    old(self).node_weights.entries(),
                    node,
                ),
            final(self).heap.contents().len() <= old(self).heap.contents().len() + graph.out_list(
                node_index,
            ).len(),
    {
        let ghost g = weighted_graph::<WeightType, EdgeData, Graph>(graph);
        proof {
            let s = search_state(
                self.node_weights.entries(),
                self.heap.contents(),
                done,
                Some((node_index, 0int)),
            );
            assert(s.settled(node_index));
            assert((s.val)(node_index) < s.inf);
            assert(g.has(node_index));
            graph.lemma_neighbors(node_index);
        }
        let neighbors = graph.out_neighbors(node_index);
        let mut i: usize = 0;
        while i < neighbors.len()
            invariant
                i <= neighbors@.len(),
                neighbors@ == graph.out_list(node_index),
                g == weighted_graph::<WeightType, EdgeData, Graph>(graph),
                g.has(node_index),
                Self::searchable(graph),
                graph.node_bound() <= self.node_weights.node_limit(),
                self.node_weights.node_limit() == old(self).node_weights.node_limit(),
                self.heap.valid(),
                self.node_weights.valid(),
                search_state(
                    self.node_weights.entries(),
                    self.heap.contents(),
                    done,
                    Some((node_index, i as int)),
                ).consistent(g, source),
                weight.value() == stored_value(self.node_weights.entries(), node_index as int),
                forall|node: int| #[trigger]
                    stored_value(self.node_weights.entries(), node) <= stored_value(
                        old(self).node_weights.entries(),
                        node,
                    ),
                entries_reachable(g, source, old(self).node_weights.entries()) ==> entries_reachable(
                    g,
                    source,
                    self.node_weights.entries(),
                ),
                self.heap.contents().len() <= old(self).heap.contents().len() + i,
            decreases neighbors@.len() - i,
        {
            let neighbor = neighbors[i];
            let ghost before = search_state(
                self.node_weights.entries(),
                self.heap.contents(),
                done,
                Some((node_index, i as int)),
            );
            let ghost entries_before = self.node_weights.entries();
            let ghost arc = arc_of::<WeightType, EdgeData, Graph>(graph, neighbor);
            proof {
                graph.lemma_neighbors(node_index);
                assert(graph.out_list(node_index)[i as int] == neighbor);
                assert(g.has_arc(node_index, i as int));
                assert(g.out[node_index][i as int] == arc);
                assert(arc.weight >= 0);
                assert(before.settled(node_index));
                assert(0 <= (before.val)(node_index) < before.inf);
                // A walk leads to the neighbor: one to the node, and the arc.
                let to_node = choose|arcs: Seq<Arc>| #[trigger]
                    is_walk(g, source, arcs) && walk_end(source, arcs) == node_index && walk_weight(arcs)
                        == (before.val)(node_index);
                lemma_walk_extend(g, source, to_node, i as int);
                assert(is_walk(g, source, to_node.push(arc)) && walk_end(source, to_node.push(arc))
                    == neighbor.node_id);
                assert(reachable(g, source, neighbor.node_id));
            }
            let edge_weight = graph.edge_data(neighbor.edge_id).weight();
            let new_neighbor_weight = weight.plus(&edge_weight);
            let neighbor_weight = self.node_weights.get_mut(neighbor.node_id);
            if new_neighbor_weight.less_than(neighbor_weight) {
                *neighbor_weight = new_neighbor_weight;
                self.heap.insert(new_neighbor_weight, neighbor.node_id);
                proof {
                    let after = search_state(
                        self.node_weights.entries(),
                        self.heap.contents(),
                        done,
                        Some((node_index, i as int + 1)),
                    );
                    assert((before.val)(node_index) + arc.weight < (before.val)(neighbor.node_id));
                    assert forall|node: usize| #[trigger]
                        (after.val)(node) == (if node == arc.to {
                            (before.val)(node_index) + arc.weight
                        } else {
                            (before.val)(node)
                        }) by {}
                    lemma_relax_improved(before, after, g, source);
                    assert forall|node: int| #[trigger]
                        stored_value(self.node_weights.entries(), node) <= stored_value(
                            entries_before,
                            node,
                        ) by {}
                }
            } else {
                proof {
                    let after = search_state(
                        self.node_weights.entries(),
                        self.heap.contents(),
                        done,
                        Some((node_index, i as int + 1)),
                    );
                    assert(after.val =~= before.val);
                    assert(after == (SearchState {
                        current: Some((node_index, i as int + 1)),
                        ..before
                    }));
                    lemma_relax_kept(before, after, g, source);
                    assert forall|node: int| #[trigger]
                        stored_value(self.node_weights.entries(), node) <= stored_value(
                            entries_before,
                            node,
                        ) by {}
                }
            }
            i += 1;
        }
        proof {
            let s = search_state(
                self.node_weights.entries(),
                self.heap.contents(),
                done,
                Some((node_index, i as int)),
            );
            let t = search_state(
                self.node_weights.entries(),
                self.heap.contents(),
                done.insert(node_index),
                None,
            );
            assert(g.out[node_index].len() == neighbors@.len());
            lemma_finalize(s, t, g, source);
        }
    }

    /// Compute the shortest paths from source to all targets, with given maximum weight.
    ///
    /// The nodes are finalized in the order of their distances from the source.
    /// Each finalized node that is a target, and not the source where
    /// `forbid_source_target` is set, is appended to `distances` with its
    /// distance. The search ends when the heap is empty, when the next node is
    /// farther than `max_weight`, or when `distances` holds `target_amount`
    /// entries: its exhaustiveness is then `Complete`. It is aborted after a
    /// node when the store of the node weights holds more than
    /// `max_node_weight_data_size` entries, or else the heap more than
    /// `max_heap_data_size`. In every case the heap and the store are cleared.
    ///
    /// The performance data counts one iteration for each entry that is taken
    /// from the heap, and one unnecessary heap element for each of them whose
    /// node had a smaller weight by then.
    ///
    /// **max_node_weight_data_size:** the maximum number of nodes for which a weight can be stored before the search aborts.
    #[inline(never)]
    #[allow(clippy::too_many_arguments)]
    pub fn shortest_path_lens<
        TargetMap: DijkstraTargetMap,
        DijkstraPerformance: DijkstraPerformanceData,
    >(
        &mut self,
        graph: &Graph,
        source: usize,
        targets: &TargetMap,
        target_amount: usize,
        max_weight: WeightType,
        forbid_source_target: bool,
        distances: &mut Vec<(usize, WeightType)>,
        max_node_weight_data_size: usize,
        max_heap_data_size: usize,
        performance_data: DijkstraPerformance,
    ) -> (status: DijkstraStatus<DijkstraPerformance>)
        requires
            old(self).ready(),
            Self::searchable(graph),
            graph.node_ids().contains(source),
            graph.node_bound() <= old(self).node_limit(),
            forall|node: usize| node < graph.node_bound() ==> targets.covers(node),
        ensures
            final(self).ready(),
            final(self).node_limit() == old(self).node_limit(),
            distances_exact(
                weighted_graph::<WeightType, EdgeData, Graph>(graph),
                source,
                targets,
                forbid_source_target,
                max_weight.value(),
                final(distances)@,
            ),
            distances_ordered(final(distances)@),
            distances_nearest(
                weighted_graph::<WeightType, EdgeData, Graph>(graph),
                source,
                targets,
                forbid_source_target,
                final(distances)@,
            ),
            target_amount > 0 ==> final(distances)@.len() <= target_amount,
            status.exhaustiveness == DijkstraExhaustiveness::Complete && final(distances)@.len()
                != target_amount ==> distances_complete(
                weighted_graph::<WeightType, EdgeData, Graph>(graph),
                source,
                targets,
                forbid_source_target,
                max_weight.value(),
                final(distances)@,
            ),
            status.exhaustiveness == DijkstraExhaustiveness::PartialNodeWeights
                ==> max_node_weight_data_size < usize::MAX,
            status.exhaustiveness == DijkstraExhaustiveness::PartialHeap ==> max_heap_data_size
                < usize::MAX,
            status.exhaustiveness == DijkstraExhaustiveness::PartialHeap ==> max_heap_data_size
                <= arc_count(graph, graph.node_ids().len()),
            status.exhaustiveness == DijkstraExhaustiveness::PartialNodeWeights
                ==> max_node_weight_data_size < old(self).node_limit(),
            status.exhaustiveness == DijkstraExhaustiveness::PartialNodeWeights
                && NodeWeights::empties_on_clear() ==> max_node_weight_data_size < reachable_indices(
                weighted_graph::<WeightType, EdgeData, Graph>(graph),
                source,
                old(self).node_limit(),
            ).len(),
            exists|iterations: nat, unnecessary: nat|
                final(distances)@.len() + unnecessary <= iterations && status.performance_data.record()
                    == #[trigger] after_iterations(
                    performance_data.record(),
                    iterations,
                    unnecessary,
                ),
    {
        let ghost g = weighted_graph::<WeightType, EdgeData, Graph>(graph);
        let ghost inf = WeightType::infinity_value();
        let ghost start_record = performance_data.record();
        let mut performance_data = performance_data;
        proof {
            max_weight.lemma_value_bounds();
        }
        self.heap.insert(WeightType::zero(), source);
        proof {
            graph.lemma_ids();
            let i = choose|i: int| 0 <= i < graph.node_ids().len() && graph.node_ids()[i] == source;
            assert(graph.node_ids()[i] < graph.node_bound());
        }
        self.node_weights.set(source, WeightType::zero());
        distances.clear();
        let mut exhaustiveness = DijkstraExhaustiveness::Complete;

        let ghost mut done = Set::<usize>::empty();
        let ghost mut last: int = 0;
        let ghost mut iterations: nat = 0;
        let ghost mut unnecessary: nat = 0;
        proof {
            let s = search_state(self.node_weights.entries(), self.heap.contents(), done, None);
            assert(g.has(source));
            assert forall|node: usize| #[trigger]
                (s.val)(node) == (if node == source { 0 } else { s.inf }) by {
                assert(stored_value(old(self).node_weights.entries(), node as int) == inf);
            }
            lemma_seeded(s, g, source);
            if NodeWeights::empties_on_clear() {
                let empty = Seq::<Arc>::empty();
                assert(is_walk(g, source, empty) && walk_end(source, empty) == source);
                assert(reachable(g, source, source));
            }
            assert forall|arcs: Seq<Arc>| #[trigger]
                is_walk(g, source, arcs) && walk_weight(arcs) < last implies done.contains(
                walk_end(source, arcs),
            ) by {
                lemma_walk_basics(g, source, arcs);
            }
            lemma_after_one_more(start_record, 0, 0);
        }
        let mut running: bool = true;
        while running
            invariant
                g == weighted_graph::<WeightType, EdgeData, Graph>(graph),
                inf == WeightType::infinity_value(),
                max_weight.value() <= inf,
                Self::searchable(graph),
                graph.node_ids().contains(source),
                graph.node_bound() <= self.node_weights.node_limit(),
                self.node_weights.node_limit() == old(self).node_weights.node_limit(),
                forall|node: usize| node < graph.node_bound() ==> targets.covers(node),
                self.heap.valid(),
                self.node_weights.valid(),
                running ==> search_state(
                    self.node_weights.entries(),
                    self.heap.contents(),
                    done,
                    None,
                ).consistent(g, source),
                done.finite(),
                forall|node: usize| done.contains(node) ==> node < graph.node_bound(),
                distances_exact(
                    g,
                    source,
                    targets,
                    forbid_source_target,
                    max_weight.value(),
                    distances@,
                ),
                distances_ordered(distances@),
                forall|i: int|
                    0 <= i < distances@.len() ==> done.contains((#[trigger] distances@[i]).0)
                        && distances@[i].1.value() <= last,
                forall|node: usize|
                    done.contains(node) && reportable(targets, source, forbid_source_target, node)
                        ==> reported(distances@, node),
                forall|arcs: Seq<Arc>| #[trigger]
                    is_walk(g, source, arcs) && walk_weight(arcs) < last ==> done.contains(
                        walk_end(source, arcs),
                    ),
                running ==> forall|e: (int, usize)| #[trigger]
                    self.heap.contents().count(e) > 0 ==> last <= e.0,
                !running && exhaustiveness == DijkstraExhaustiveness::Complete && distances@.len()
                    != target_amount ==> distances_complete(
                    g,
                    source,
                    targets,
                    forbid_source_target,
                    max_weight.value(),
                    distances@,
                ),
                target_amount > 0 ==> distances@.len() <= target_amount,
                target_amount > 0 && running ==> distances@.len() < target_amount,
                exhaustiveness == DijkstraExhaustiveness::PartialNodeWeights
                    ==> max_node_weight_data_size < usize::MAX,
                exhaustiveness == DijkstraExhaustiveness::PartialHeap ==> max_heap_data_size
                    < usize::MAX,
                exhaustiveness == DijkstraExhaustiveness::PartialHeap ==> max_heap_data_size
                    <= arc_count(graph, graph.node_ids().len()),
                running ==> self.heap.contents().len() <= 1 + arc_count_of(
                    graph,
                    done,
                    graph.node_ids().len(),
                ),
                exhaustiveness == DijkstraExhaustiveness::PartialNodeWeights
                    ==> max_node_weight_data_size < self.node_weights.node_limit(),
                exhaustiveness == DijkstraExhaustiveness::PartialNodeWeights
                    && NodeWeights::empties_on_clear() ==> max_node_weight_data_size
                    < reachable_indices(g, source, self.node_weights.node_limit()).len(),
                running && NodeWeights::empties_on_clear() ==> entries_reachable(
                    g,
                    source,
                    self.node_weights.entries(),
                ),
                distances@.len() + unnecessary <= iterations,
                performance_data.record() == after_iterations(
                    start_record,
                    iterations,
                    unnecessary,
                ),
            decreases
                    (if running {
                        1int
                    } else {
                        0int
                    }),
                    graph.node_bound() - done.len(),
                    self.heap.contents().len(),
        {
            let ghost before = search_state(
                self.node_weights.entries(),
                self.heap.contents(),
                done,
                None,
            );
            let ghost record_before = performance_data.record();
            proof {
                lemma_bounded_set(done, graph.node_bound());
            }
            match self.heap.remove_min() {
                None => {
                    running = false;
                    proof {
                        assert forall|arcs: Seq<Arc>| #[trigger]
                            is_walk(g, source, arcs) && reportable(
                                targets,
                                source,
                                forbid_source_target,
                                walk_end(source, arcs),
                            ) && walk_weight(arcs) <= max_weight.value() && walk_weight(arcs)
                                < WeightType::infinity_value() implies reported(
                            distances@,
                            walk_end(source, arcs),
                        ) by {
                            lemma_light_walks_done(before, g, source, inf, arcs);
                        }
                    }
                },
                Some((weight, node_index)) => {
                    let ghost entry = (weight.value(), node_index);
                    performance_data.add_iteration();
                    proof {
                        lemma_after_one_more(start_record, iterations, unnecessary);
                        iterations = iterations + 1;
                        assert(before.heap.count(entry) > 0);
                        assert((before.val)(node_index) <= entry.0 < inf);
                        assert(g.has(node_index));
                        graph.lemma_ids();
                        let i = choose|i: int|
                            0 <= i < graph.node_ids().len() && graph.node_ids()[i] == node_index;
                        assert(graph.node_ids()[i] < graph.node_bound());
                    }
                    // Check if the node was already processed
                    let actual_weight = self.node_weights.get(node_index);
                    if actual_weight.less_than(&weight) {
                        performance_data.add_unnecessary_heap_element();
                        proof {
                            lemma_after_one_more(start_record, iterations, unnecessary);
                            unnecessary = unnecessary + 1;
                            let after = search_state(
                                self.node_weights.entries(),
                                self.heap.contents(),
                                done,
                                None,
                            );
                            assert(after == (SearchState {
                                heap: before.heap.remove(entry),
                                ..before
                            }));
                            lemma_pop_stale(before, after, g, source, entry);
                        }
                    } else {
                        let ghost popped = search_state(
                            self.node_weights.entries(),
                            self.heap.contents(),
                            done,
                            Some((node_index, 0int)),
                        );
                        proof {
                            assert(popped == (SearchState {
                                heap: before.heap.remove(entry),
                                current: Some((node_index, 0int)),
                                ..before
                            }));
                            lemma_pop_exact(before, popped, g, source, entry);
                        }
                        // Check if we are still lower than or equal to max_weight
                        if max_weight.less_than(&weight) {
                            running = false;
                            proof {
                                assert forall|arcs: Seq<Arc>| #[trigger]
                                    is_walk(g, source, arcs) && reportable(
                                        targets,
                                        source,
                                        forbid_source_target,
                                        walk_end(source, arcs),
                                    ) && walk_weight(arcs) <= max_weight.value() && walk_weight(arcs)
                                        < WeightType::infinity_value() implies reported(
                                    distances@,
                                    walk_end(source, arcs),
                                ) by {
                                    lemma_light_walks_done(before, g, source, entry.0, arcs);
                                }
                            }
                        } else {
                            proof {
                                assert forall|arcs: Seq<Arc>| #[trigger]
                                    is_walk(g, source, arcs) && walk_weight(arcs)
                                        < entry.0 implies done.insert(node_index).contains(
                                    walk_end(source, arcs),
                                ) by {
                                    lemma_light_walks_done(before, g, source, entry.0, arcs);
                                }
                                assert(last <= entry.0);
                            }
                            // Check if we found a target
                            let mut found_all: bool = false;
                            let ghost distances_before = distances@;
                            if targets.is_target(node_index) && (!forbid_source_target || node_index
                                != source) {
                                distances.push((node_index, weight));
                                proof {
                                    assert(distances@[distances_before.len() as int] == (
                                        node_index,
                                        weight,
                                    ));
                                    assert forall|i: int| 0 <= i < distances_before.len() implies (
                                    #[trigger] distances@[i]) == distances_before[i] by {}
                                    assert forall|node: usize|
                                        reported(distances_before, node) implies reported(
                                        distances@,
                                        node,
                                    ) by {
                                        let i = choose|i: int|
                                            0 <= i < distances_before.len() && (
                                            #[trigger] distances_before[i]).0 == node;
                                        assert(distances@[i].0 == node);
                                    }
                                    assert(reported(distances@, node_index));
                                }
                                // Check if we already found all paths
                                if distances.len() == target_amount {
                                    found_all = true;
                                }
                            }
                            if found_all {
                                running = false;
                            } else {
                                proof {
                                    lemma_arc_count_of_insert(
                                        graph,
                                        done,
                                        node_index,
                                        graph.node_ids().len(),
                                    );
                                    lemma_arc_count_of_bounded(
                                        graph,
                                        done.insert(node_index),
                                        graph.node_ids().len(),
                                    );
                                    assert(graph.node_ids().contains(node_index));
                                }
                                self.relax_neighbors(
                                    graph,
                                    node_index,
                                    weight,
                                    Ghost(source),
                                    Ghost(done),
                                );
                                proof {
                                    self.node_weights.lemma_entries_below_limit();
                                    lemma_bounded_entries(
                                        self.node_weights.entries().dom(),
                                        self.node_weights.node_limit(),
                                    );
                                    if NodeWeights::empties_on_clear() {
                                        let limit = self.node_weights.node_limit();
                                        let all = reachable_indices(g, source, limit);
                                        lemma_bounded_entries(all, limit);
                                        assert(self.node_weights.entries().dom().subset_of(all));
                                        vstd::set_lib::lemma_len_subset(
                                            self.node_weights.entries().dom(),
                                            all,
                                        );
                                    }
                                }
                                if self.node_weights.size() > max_node_weight_data_size {
                                    exhaustiveness = DijkstraExhaustiveness::PartialNodeWeights;
                                    running = false;
                                } else if self.heap.size() > max_heap_data_size {
                                    exhaustiveness = DijkstraExhaustiveness::PartialHeap;
                                    running = false;
                                }
                            }
                            proof {
                                let ghost after = search_state(
                                    self.node_weights.entries(),
                                    self.heap.contents(),
                                    done.insert(node_index),
                                    None,
                                );
                                if !found_all {
                                    assert(after.settled(node_index));
                                    assert((after.val)(node_index) == entry.0);
                                }
                                done = done.insert(node_index);
                                last = entry.0;
                                lemma_bounded_set(done, graph.node_bound());
                            }
                        }
                    }
                },
            }
        }

        self.heap.clear();
        self.node_weights.clear();
        proof {
            assert forall|arcs: Seq<Arc>, i: int|
                #![trigger is_walk(g, source, arcs), distances@[i]]
                is_walk(g, source, arcs) && reportable(
                    targets,
                    source,
                    forbid_source_target,
                    walk_end(source, arcs),
                ) && !reported(distances@, walk_end(source, arcs)) && 0 <= i
                    < distances@.len() implies distances@[i].1.value() <= walk_weight(arcs) by {
                assert(!done.contains(walk_end(source, arcs)));
            }
        }
        DijkstraStatus { exhaustiveness, performance_data }
    }
}

} // verus!
