use traitgraph::dijkstra::performance_counters::NoopDijkstraPerformanceCounter;
use traitgraph::dijkstra::DefaultDijkstra;
use traitgraph::implementation::petgraph_impl::PetGraph;
use traitgraph::interface::MutableGraphContainer;

#[test]
fn test_dijkstra_simple() {
    let mut graph = PetGraph::new();
    let n1 = graph.add_node(());
    let n2 = graph.add_node(());
    let n3 = graph.add_node(());
    graph.add_edge(n1, n2, 2);
    graph.add_edge(n2, n3, 2);
    graph.add_edge(n1, n3, 5);

    let mut dijkstra = DefaultDijkstra::new(&graph);
    let mut distances = Vec::new();
    let mut targets = vec![false, false, true];
    dijkstra.shortest_path_lens(
        &graph,
        n1,
        &targets,
        1,
        6,
        false,
        &mut distances,
        usize::MAX,
        usize::MAX,
        NoopDijkstraPerformanceCounter,
    );
    assert_eq!(distances, vec![(n3, 4)]);

    dijkstra.shortest_path_lens(
        &graph,
        n1,
        &targets,
        1,
        6,
        false,
        &mut distances,
        usize::MAX,
        usize::MAX,
        NoopDijkstraPerformanceCounter,
    );
    assert_eq!(distances, vec![(n3, 4)]);

    dijkstra.shortest_path_lens(
        &graph,
        n2,
        &targets,
        1,
        6,
        false,
        &mut distances,
        usize::MAX,
        usize::MAX,
        NoopDijkstraPerformanceCounter,
    );
    assert_eq!(distances, vec![(n3, 2)]);

    dijkstra.shortest_path_lens(
        &graph,
        n3,
        &targets,
        1,
        6,
        false,
        &mut distances,
        usize::MAX,
        usize::MAX,
        NoopDijkstraPerformanceCounter,
    );
    assert_eq!(distances, vec![(n3, 0)]);

    targets = vec![false, true, false];
    dijkstra.shortest_path_lens(
        &graph,
        n3,
        &targets,
        1,
        6,
        false,
        &mut distances,
        usize::MAX,
        usize::MAX,
        NoopDijkstraPerformanceCounter,
    );
    assert_eq!(distances, vec![]);
}

#[test]
fn test_dijkstra_cycle() {
    let mut graph = PetGraph::new();
    let n1 = graph.add_node(());
    let n2 = graph.add_node(());
    let n3 = graph.add_node(());
    graph.add_edge(n1, n2, 2);
    graph.add_edge(n2, n3, 2);
    graph.add_edge(n3, n1, 5);

    let mut dijkstra = DefaultDijkstra::new(&graph);
    let mut distances = Vec::new();
    let targets = vec![false, false, true];
    dijkstra.shortest_path_lens(
        &graph,
        n1,
        &targets,
        1,
        6,
        false,
        &mut distances,
        usize::MAX,
        usize::MAX,
        NoopDijkstraPerformanceCounter,
    );
    assert_eq!(distances, vec![(n3, 4)]);
}

use traitgraph::dijkstra::heap::BinaryMinHeap;
use traitgraph::dijkstra::hashbrown_dijkstra_node_weight_array::HashMapNodeWeightArray;
use traitgraph::dijkstra::performance_counters::{
    DijkstraPerformanceCounter, DijkstraPerformanceData,
};
use traitgraph::dijkstra::{Dijkstra, DijkstraExhaustiveness};

fn diamond() -> PetGraph<(), u64> {
    // 0 -> 1 (1), 0 -> 2 (4), 1 -> 2 (2), 1 -> 3 (7), 2 -> 3 (1), 3 -> 4 (3)
    let mut graph = PetGraph::new();
    for _ in 0..5 {
        graph.add_node(());
    }
    graph.add_edge(0, 1, 1);
    graph.add_edge(0, 2, 4);
    graph.add_edge(1, 2, 2);
    graph.add_edge(1, 3, 7);
    graph.add_edge(2, 3, 1);
    graph.add_edge(3, 4, 3);
    graph
}

#[test]
fn distances_are_lengths_of_shortest_paths() {
    let graph = diamond();
    let mut dijkstra = DefaultDijkstra::new(&graph);
    let mut distances = Vec::new();
    let targets = vec![true; 5];
    let status = dijkstra.shortest_path_lens(
        &graph,
        0,
        &targets,
        0,
        u64::MAX,
        false,
        &mut distances,
        usize::MAX,
        usize::MAX,
        NoopDijkstraPerformanceCounter,
    );
    assert_eq!(status.exhaustiveness, DijkstraExhaustiveness::Complete);
    assert_eq!(distances, vec![(0, 0), (1, 1), (2, 3), (3, 4), (4, 7)]);
}

#[test]
fn unreachable_nodes_are_not_reported() {
    let graph = diamond();
    let mut dijkstra = DefaultDijkstra::new(&graph);
    let mut distances = Vec::new();
    let targets = vec![true; 5];
    dijkstra.shortest_path_lens(
        &graph,
        3,
        &targets,
        0,
        u64::MAX,
        false,
        &mut distances,
        usize::MAX,
        usize::MAX,
        NoopDijkstraPerformanceCounter,
    );
    assert_eq!(distances, vec![(3, 0), (4, 3)]);
}

#[test]
fn nodes_beyond_the_maximum_weight_are_not_reported() {
    let graph = diamond();
    let mut dijkstra = DefaultDijkstra::new(&graph);
    let mut distances = Vec::new();
    let targets = vec![true; 5];
    let status = dijkstra.shortest_path_lens(
        &graph,
        0,
        &targets,
        0,
        3,
        false,
        &mut distances,
        usize::MAX,
        usize::MAX,
        NoopDijkstraPerformanceCounter,
    );
    assert_eq!(status.exhaustiveness, DijkstraExhaustiveness::Complete);
    assert_eq!(distances, vec![(0, 0), (1, 1), (2, 3)]);
}

#[test]
fn search_stops_after_the_requested_number_of_targets() {
    // Two targets at the same distance: the search ends with the first.
    let mut graph = PetGraph::new();
    for _ in 0..4 {
        graph.add_node(());
    }
    graph.add_edge(0, 1, 5u64);
    graph.add_edge(0, 2, 5);
    graph.add_edge(1, 3, 1);
    graph.add_edge(2, 3, 1);
    let mut dijkstra = DefaultDijkstra::new(&graph);
    let mut distances = Vec::new();
    let targets = vec![false, true, true, true];
    let status = dijkstra.shortest_path_lens(
        &graph,
        0,
        &targets,
        1,
        u64::MAX,
        false,
        &mut distances,
        usize::MAX,
        usize::MAX,
        DijkstraPerformanceCounter::new(),
    );
    assert_eq!(status.exhaustiveness, DijkstraExhaustiveness::Complete);
    assert_eq!(distances.len(), 1);
    assert_eq!(distances[0].1, 5);
    assert!(distances[0].0 == 1 || distances[0].0 == 2);
    // The source and one of the two targets were taken from the heap, no more.
    assert_eq!(status.performance_data.iterations(), Some(2));
}

#[test]
fn forbidden_source_is_not_reported() {
    let graph = diamond();
    let mut dijkstra = DefaultDijkstra::new(&graph);
    let mut distances = Vec::new();
    let targets = vec![true, false, true, false, false];
    dijkstra.shortest_path_lens(
        &graph,
        0,
        &targets,
        0,
        u64::MAX,
        true,
        &mut distances,
        usize::MAX,
        usize::MAX,
        NoopDijkstraPerformanceCounter,
    );
    assert_eq!(distances, vec![(2, 3)]);
    dijkstra.shortest_path_lens(
        &graph,
        0,
        &targets,
        0,
        u64::MAX,
        false,
        &mut distances,
        usize::MAX,
        usize::MAX,
        NoopDijkstraPerformanceCounter,
    );
    assert_eq!(distances, vec![(0, 0), (2, 3)]);
}

#[test]
fn single_node_as_target() {
    let graph = diamond();
    let mut dijkstra = DefaultDijkstra::new(&graph);
    let mut distances = Vec::new();
    let target: usize = 3;
    dijkstra.shortest_path_lens(
        &graph,
        0,
        &target,
        1,
        u64::MAX,
        false,
        &mut distances,
        usize::MAX,
        usize::MAX,
        NoopDijkstraPerformanceCounter,
    );
    assert_eq!(distances, vec![(3, 4)]);
}

#[test]
fn repeated_searches_give_the_same_distances() {
    let graph = diamond();
    let mut dijkstra = DefaultDijkstra::new(&graph);
    let targets = vec![true; 5];
    let mut first = Vec::new();
    let mut second = vec![(17, 17)];
    for distances in [&mut first, &mut second] {
        dijkstra.shortest_path_lens(
            &graph,
            1,
            &targets,
            0,
            u64::MAX,
            false,
            distances,
            usize::MAX,
            usize::MAX,
            NoopDijkstraPerformanceCounter,
        );
    }
    assert_eq!(first, vec![(1, 0), (2, 2), (3, 3), (4, 6)]);
    assert_eq!(first, second);
}

fn star(leaves: usize) -> PetGraph<(), u64> {
    let mut graph = PetGraph::new();
    graph.add_node(());
    for leaf in 1..=leaves {
        graph.add_node(());
        graph.add_edge(0, leaf, leaf as u64);
    }
    graph
}

#[test]
fn small_node_weight_budget_aborts_the_search() {
    let graph = star(10);
    let mut dijkstra = DefaultDijkstra::new(&graph);
    let mut distances = Vec::new();
    let targets = vec![true; 11];
    let status = dijkstra.shortest_path_lens(
        &graph,
        0,
        &targets,
        0,
        u64::MAX,
        false,
        &mut distances,
        3,
        usize::MAX,
        NoopDijkstraPerformanceCounter,
    );
    assert_eq!(status.exhaustiveness, DijkstraExhaustiveness::PartialNodeWeights);
    assert_eq!(distances, vec![(0, 0)]);
    // The data structures were cleared: the next search is complete.
    let status = dijkstra.shortest_path_lens(
        &graph,
        0,
        &targets,
        0,
        u64::MAX,
        false,
        &mut distances,
        usize::MAX,
        usize::MAX,
        NoopDijkstraPerformanceCounter,
    );
    assert_eq!(status.exhaustiveness, DijkstraExhaustiveness::Complete);
    assert_eq!(distances.len(), 11);
    assert_eq!(distances[10], (10, 10));
}

#[test]
fn small_heap_budget_aborts_the_search() {
    let graph = star(10);
    let mut dijkstra = DefaultDijkstra::new(&graph);
    let mut distances = Vec::new();
    let targets = vec![true; 11];
    let status = dijkstra.shortest_path_lens(
        &graph,
        0,
        &targets,
        0,
        u64::MAX,
        false,
        &mut distances,
        usize::MAX,
        3,
        NoopDijkstraPerformanceCounter,
    );
    assert_eq!(status.exhaustiveness, DijkstraExhaustiveness::PartialHeap);
    assert_eq!(distances, vec![(0, 0)]);
}

#[test]
fn sums_stop_at_infinity() {
    let mut graph = PetGraph::new();
    for _ in 0..3 {
        graph.add_node(());
    }
    graph.add_edge(0, 1, u64::MAX - 1);
    graph.add_edge(1, 2, 5u64);
    let mut dijkstra = DefaultDijkstra::new(&graph);
    let mut distances = Vec::new();
    let targets = vec![true; 3];
    dijkstra.shortest_path_lens(
        &graph,
        0,
        &targets,
        0,
        u64::MAX,
        false,
        &mut distances,
        usize::MAX,
        usize::MAX,
        NoopDijkstraPerformanceCounter,
    );
    assert_eq!(distances, vec![(0, 0), (1, u64::MAX - 1)]);
}

#[test]
fn stale_heap_entries_are_counted_as_unnecessary() {
    // Node 2 is first reached with 10, then with 3: its first entry is stale.
    let mut graph = PetGraph::new();
    for _ in 0..3 {
        graph.add_node(());
    }
    graph.add_edge(0, 2, 10u64);
    graph.add_edge(0, 1, 1);
    graph.add_edge(1, 2, 2);
    let mut dijkstra = DefaultDijkstra::new(&graph);
    let mut distances = Vec::new();
    let targets = vec![false, false, true];
    let status = dijkstra.shortest_path_lens(
        &graph,
        0,
        &targets,
        0,
        u64::MAX,
        false,
        &mut distances,
        usize::MAX,
        usize::MAX,
        DijkstraPerformanceCounter::new(),
    );
    assert_eq!(distances, vec![(2, 3)]);
    assert_eq!(status.performance_data.iterations(), Some(4));
    assert_eq!(status.performance_data.unnecessary_heap_elements(), Some(1));
}

#[test]
fn dense_and_sparse_stores_give_the_same_distances() {
    let graph = diamond();
    let targets = vec![true; 5];
    let expected = vec![(0, 0), (1, 1), (2, 3), (3, 4), (4, 7)];

    let mut dense: Dijkstra<PetGraph<(), u64>, u64, Vec<u64>, BinaryMinHeap<u64, usize>> =
        Dijkstra::new(&graph);
    let mut distances = Vec::new();
    dense.shortest_path_lens(
        &graph,
        0,
        &targets,
        0,
        u64::MAX,
        false,
        &mut distances,
        usize::MAX,
        usize::MAX,
        NoopDijkstraPerformanceCounter,
    );
    assert_eq!(distances, expected);

    let mut sparse: Dijkstra<
        PetGraph<(), u64>,
        u64,
        HashMapNodeWeightArray,
        BinaryMinHeap<u64, usize>,
    > = Dijkstra::new(&graph);
    for _ in 0..2 {
        let status = sparse.shortest_path_lens(
            &graph,
            0,
            &targets,
            0,
            u64::MAX,
            false,
            &mut distances,
            5,
            usize::MAX,
            NoopDijkstraPerformanceCounter,
        );
        assert_eq!(status.exhaustiveness, DijkstraExhaustiveness::Complete);
        assert_eq!(distances, expected);
    }
    // With room for fewer entries than nodes are reached, the search is aborted.
    let status = sparse.shortest_path_lens(
        &graph,
        0,
        &targets,
        0,
        u64::MAX,
        false,
        &mut distances,
        2,
        usize::MAX,
        NoopDijkstraPerformanceCounter,
    );
    assert_eq!(status.exhaustiveness, DijkstraExhaustiveness::PartialNodeWeights);
}
