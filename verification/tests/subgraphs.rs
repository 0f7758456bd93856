use traitgraph::implementation::petgraph_impl::PetGraph;
use traitgraph::implementation::subgraphs::bit_vector_subgraph::BitVectorSubgraph;
use traitgraph::implementation::subgraphs::incremental_subgraph::IncrementalSubgraph;
use traitgraph::interface::{
    ImmutableGraphContainer, MutableGraphContainer, MutableSubgraph, NavigableGraph, Neighbor,
};

#[test]
fn test_clear() {
    let mut graph = PetGraph::new();
    let n: Vec<_> = (0..10).map(|i| graph.add_node(i)).collect();
    let e: Vec<_> = (0..9)
        .map(|i| graph.add_edge(n[i], n[i + 1], i + 100))
        .collect();
    let mut subgraph = BitVectorSubgraph::new_empty(&graph);
    assert!(subgraph.node_indices().into_iter().next().is_none());
    assert!(subgraph.edge_indices().into_iter().next().is_none());

    subgraph.enable_node(n[2]);
    subgraph.enable_node(n[3]);
    subgraph.enable_edge(e[2]);
    assert_eq!(subgraph.node_indices(), n[2..4].to_vec());
    assert_eq!(subgraph.edge_indices(), e[2..3].to_vec());

    subgraph.clear();
    assert!(subgraph.node_indices().into_iter().next().is_none());
    assert!(subgraph.edge_indices().into_iter().next().is_none());
}

fn chain() -> PetGraph<usize, usize> {
    let mut graph = PetGraph::new();
    for i in 0..5 {
        graph.add_node(i);
    }
    for i in 0..4 {
        graph.add_edge(i, i + 1, 100 + i);
    }
    graph
}

#[test]
fn bit_vector_subgraph_filters_neighbors() {
    let graph = chain();
    let mut subgraph = BitVectorSubgraph::new_empty(&graph);
    subgraph.fill();
    assert_eq!(subgraph.node_count(), 5);
    assert_eq!(subgraph.edge_count(), 4);
    subgraph.disable_edge(1);
    subgraph.disable_node(4);
    assert!(!subgraph.contains_node_index(4));
    assert!(subgraph.contains_node_index(3));
    assert!(!subgraph.contains_node_index(17));
    assert!(!subgraph.contains_edge_index(1));
    assert_eq!(subgraph.node_indices(), vec![0, 1, 2, 3]);
    assert_eq!(subgraph.edge_indices(), vec![0, 2, 3]);
    assert_eq!(subgraph.out_neighbors(1), vec![]);
    assert_eq!(subgraph.out_neighbors(0), vec![Neighbor { edge_id: 0, node_id: 1 }]);
    assert_eq!(subgraph.in_neighbors(3), vec![Neighbor { edge_id: 2, node_id: 2 }]);
    assert_eq!(subgraph.edges_between(2, 3), vec![2]);
    assert_eq!(subgraph.edges_between(1, 2), vec![]);
    assert_eq!(*subgraph.node_data(3), 3);
    assert_eq!(*subgraph.edge_data(2), 102);
    assert_eq!(subgraph.edge_endpoints(2).to_node, 3);
}

#[test]
fn incremental_subgraph_grows_with_the_steps() {
    let graph = chain();
    let mut subgraph = IncrementalSubgraph::new_with_incremental_steps(&graph, 3);
    assert_eq!(subgraph.node_count(), 0);
    subgraph.enable_node(0);
    subgraph.enable_node(1);
    subgraph.enable_edge(0);
    subgraph.set_current_step(1);
    subgraph.enable_node(2);
    subgraph.enable_edge(1);
    assert_eq!(subgraph.new_nodes(), &vec![2]);
    assert_eq!(subgraph.new_edges(), &vec![1]);
    assert!(subgraph.is_new_node(2));
    assert!(!subgraph.is_new_node(1));
    assert!(subgraph.is_new_edge(1));
    assert!(!subgraph.is_new_edge(0));
    assert_eq!(subgraph.node_indices(), vec![0, 1, 2]);
    assert_eq!(subgraph.edge_indices(), vec![0, 1]);
    assert_eq!(subgraph.out_neighbors(1), vec![Neighbor { edge_id: 1, node_id: 2 }]);

    subgraph.set_current_step(0);
    assert_eq!(subgraph.new_nodes(), &vec![0, 1]);
    assert!(subgraph.is_newly_removed_node(2));
    assert!(subgraph.is_newly_removed_edge(1));
    assert!(!subgraph.is_newly_removed_node(3));
    assert_eq!(subgraph.node_indices(), vec![0, 1]);
    assert_eq!(subgraph.edge_indices(), vec![0]);
    assert!(subgraph.contains_node_index(1));
    assert!(!subgraph.contains_node_index(2));
    assert_eq!(subgraph.out_neighbors(1), vec![]);
    assert_eq!(subgraph.edges_between(0, 1), vec![0]);

    subgraph.set_current_step(2);
    assert_eq!(subgraph.node_count(), 3);
    assert_eq!(subgraph.edge_count(), 2);
    assert!(subgraph.new_nodes().is_empty());
}

use traitgraph::implementation::subgraphs::filter_iterators::{
    FilterEdgeIndexIterator, FilterNeighborIterator, FilterNodeIndexIterator,
};
use traitgraph::implementation::subgraphs::induced_bit_vector_subgraph::InducedBitVectorSubgraph;
use traitgraph::implementation::subgraphs::induced_incremental_subgraph::InducedIncrementalSubgraph;
use traitgraph::implementation::subgraphs::subgraph_operators::inverted_subgraph::{
    InvertedIndexIterator, InvertedSubgraph,
};
use traitgraph::implementation::subgraphs::subgraph_operators::union_subgraph::{
    UnionIndexIterator, UnionSubgraph,
};

#[test]
fn test_inverted_index_iterator() {
    let tests = [
        (
            [3, 5, 6, 7, 10].as_slice(),
            13,
            [0, 1, 2, 4, 8, 9, 11, 12, 13].as_slice(),
        ),
        (&[0, 3, 5, 6, 7, 10, 12, 13], 13, &[1, 2, 4, 8, 9, 11]),
        (&[0, 1, 2, 3], 3, &[]),
        (&[], 3, &[0, 1, 2, 3]),
    ];

    for (iterator, maximum, expected) in tests {
        let inverted_iterator = InvertedIndexIterator::new(iterator.to_vec(), maximum);

        let actual: Vec<_> = inverted_iterator.collect();
        assert_eq!(expected, actual);
    }
}

#[test]
fn inverted_index_iterator_step_by_step() {
    let mut iterator = InvertedIndexIterator::new(vec![0, 2], 3);
    assert_eq!(iterator.next(), Some(1));
    assert_eq!(iterator.next(), Some(3));
    assert_eq!(iterator.next(), None);
    assert_eq!(iterator.next(), None);
}

#[test]
fn union_index_iterator_merges_sorted_lists() {
    let mut iterator = UnionIndexIterator::new(vec![1, 3, 5], vec![2, 3, 9]);
    assert_eq!(iterator.next(), Some(1));
    assert_eq!(iterator.next(), Some(2));
    assert_eq!(iterator.collect(), vec![3, 5, 9]);
    assert_eq!(UnionIndexIterator::new(vec![], vec![4]).collect(), vec![4]);
    assert_eq!(UnionIndexIterator::new(vec![4], vec![]).collect(), vec![4]);
    assert_eq!(UnionIndexIterator::new(vec![], vec![]).next(), None);
}

#[test]
fn union_and_inverted_subgraphs() {
    let graph = chain();
    let mut low = BitVectorSubgraph::new_empty(&graph);
    low.enable_node(0);
    low.enable_node(1);
    low.enable_edge(0);
    let mut high = BitVectorSubgraph::new_empty(&graph);
    high.enable_node(1);
    high.enable_node(3);
    high.enable_node(4);
    high.enable_edge(3);

    let union = UnionSubgraph::new(&low, &high);
    assert_eq!(union.node_indices(), vec![0, 1, 3, 4]);
    assert_eq!(union.edge_indices(), vec![0, 3]);
    assert_eq!(union.node_count(), 4);
    assert!(union.contains_node_index(3));
    assert!(!union.contains_node_index(2));
    assert!(union.contains_edge_index(3));
    assert!(!union.contains_edge_index(1));
    assert_eq!(*union.node_data(4), 4);
    assert_eq!(*union.edge_data(3), 103);
    assert_eq!(union.edge_endpoints(0).to_node, 1);

    let inverted = InvertedSubgraph::new(&low);
    assert_eq!(inverted.node_indices(), vec![2, 3, 4]);
    // The edges 2 -> 3 and 3 -> 4 have both endpoints outside of `low`.
    assert_eq!(inverted.edge_indices(), vec![2, 3]);
    assert!(inverted.contains_node_index(2));
    assert!(!inverted.contains_node_index(1));
    assert!(!inverted.contains_node_index(5));
    assert!(inverted.contains_edge_index(2));
    assert!(!inverted.contains_edge_index(1));
    assert!(!inverted.contains_edge_index(0));
    assert_eq!(inverted.edge_count(), 2);
    assert_eq!(*inverted.node_data(2), 2);
    assert_eq!(*inverted.edge_data(3), 103);
}

#[test]
fn induced_bit_vector_subgraph_has_the_edges_between_its_nodes() {
    let graph = chain();
    let mut subgraph = InducedBitVectorSubgraph::new_empty(&graph);
    assert_eq!(subgraph.node_count(), 0);
    subgraph.enable_node(1);
    subgraph.enable_node(2);
    subgraph.enable_node(4);
    assert_eq!(subgraph.node_indices(), vec![1, 2, 4]);
    assert_eq!(subgraph.edge_indices(), vec![1]);
    assert!(subgraph.contains_edge_index(1));
    assert!(!subgraph.contains_edge_index(2));
    assert!(!subgraph.contains_edge_index(9));
    subgraph.disable_node(2);
    assert_eq!(subgraph.edge_count(), 0);
    subgraph.fill();
    assert_eq!(subgraph.node_count(), 5);
    assert_eq!(subgraph.edge_count(), 4);
    assert_eq!(*subgraph.edge_data(3), 103);
    subgraph.clear();
    assert_eq!(subgraph.node_count(), 0);
    assert!(!subgraph.contains_node_index(1));
}

#[test]
fn induced_incremental_subgraph_starts_empty() {
    let graph = chain();
    let mut subgraph = InducedIncrementalSubgraph::new_with_incremental_steps(&graph, 2);
    assert_eq!(subgraph.node_count(), 0);
    assert_eq!(subgraph.edge_count(), 0);
    assert!(subgraph.new_nodes().is_empty());
    assert!(!subgraph.is_new_node(3));
    assert!(!subgraph.is_newly_removed_node(3));
    assert!(!subgraph.contains_node_index(3));
    assert!(!subgraph.contains_edge_index(3));
    subgraph.set_current_step(1);
    assert!(subgraph.node_indices().is_empty());
    assert!(subgraph.edge_indices().is_empty());
}

#[test]
fn filter_iterators_let_through_what_is_in_the_graph() {
    let graph = chain();
    let mut subgraph = BitVectorSubgraph::new_empty(&graph);
    subgraph.enable_node(1);
    subgraph.enable_node(3);
    subgraph.enable_edge(0);
    subgraph.enable_edge(2);

    let mut nodes = FilterNodeIndexIterator::new(vec![0, 1, 2, 3, 4], &subgraph);
    assert_eq!(nodes.next(), Some(1));
    assert_eq!(nodes.next(), Some(3));
    assert_eq!(nodes.next(), None);
    assert_eq!(FilterEdgeIndexIterator::new(vec![3, 2, 1, 0], &subgraph).collect(), vec![2, 0]);
    let neighbors = vec![
        Neighbor { edge_id: 1, node_id: 2 },
        Neighbor { edge_id: 2, node_id: 3 },
        Neighbor { edge_id: 0, node_id: 1 },
    ];
    let mut filtered = FilterNeighborIterator::new(neighbors, &subgraph);
    assert_eq!(filtered.next(), Some(Neighbor { edge_id: 2, node_id: 3 }));
    assert_eq!(filtered.collect(), vec![Neighbor { edge_id: 0, node_id: 1 }]);
}
