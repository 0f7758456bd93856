use traitgraph::dimacs_io::write_topology;
use traitgraph::implementation::petgraph_impl::PetGraph;
use traitgraph::interface::{
    Edge, GraphBase, ImmutableGraphContainer, MutableGraphContainer, NavigableGraph, Neighbor,
    WalkableGraph,
};

fn sample() -> PetGraph<char, u32> {
    let mut graph = PetGraph::new();
    let a = graph.add_node('a');
    let b = graph.add_node('b');
    let c = graph.add_node('c');
    graph.add_edge(a, b, 10);
    graph.add_edge(a, c, 11);
    graph.add_edge(b, c, 12);
    graph.add_edge(a, b, 13);
    graph
}

#[test]
fn petgraph_answers_queries() {
    let graph = sample();
    assert!(!graph.is_empty());
    assert_eq!(graph.node_count(), 3);
    assert_eq!(graph.edge_count(), 4);
    assert_eq!(graph.node_indices(), vec![0, 1, 2]);
    assert_eq!(graph.edge_indices(), vec![0, 1, 2, 3]);
    assert!(graph.contains_node_index(2));
    assert!(!graph.contains_node_index(3));
    assert!(graph.contains_edge_index(3));
    assert!(!graph.contains_edge_index(4));
    assert_eq!(*graph.node_data(1), 'b');
    assert_eq!(*graph.edge_data(2), 12);
    assert_eq!(graph.edge_endpoints(2), Edge { from_node: 1, to_node: 2 });
    assert_eq!(graph.new_none_optional_node_index(), None);
    assert_eq!(graph.new_none_optional_edge_index(), None);
}

#[test]
fn petgraph_gives_the_latest_neighbor_first() {
    let graph = sample();
    assert_eq!(
        graph.out_neighbors(0),
        vec![
            Neighbor { edge_id: 3, node_id: 1 },
            Neighbor { edge_id: 1, node_id: 2 },
            Neighbor { edge_id: 0, node_id: 1 },
        ]
    );
    assert_eq!(
        graph.in_neighbors(2),
        vec![Neighbor { edge_id: 2, node_id: 1 }, Neighbor { edge_id: 1, node_id: 0 }]
    );
    assert_eq!(graph.edges_between(0, 1), vec![3, 0]);
    assert_eq!(graph.edges_between(1, 0), vec![]);
    assert!(graph.contains_edge_between(0, 2));
    assert!(!graph.contains_edge_between(2, 0));
    assert_eq!(graph.edge_count_between(0, 1), 2);
    assert_eq!(graph.out_degree(0), 3);
    assert_eq!(graph.in_degree(0), 0);
    assert!(graph.is_split_node(0));
    assert!(!graph.is_split_node(1));
    assert!(graph.is_join_node(2));
    assert!(graph.is_join_node(1));
    assert!(!graph.is_biunivocal_node(1));
    assert!(!graph.is_bivalent_node(1));
    assert!(graph.is_split_edge(0));
    assert!(graph.is_join_edge(0));
    assert!(!graph.is_split_edge(2));
}

#[test]
fn petgraph_removes_edges_and_nodes() {
    let mut graph = sample();
    assert_eq!(graph.remove_edge(0), Some(10));
    assert_eq!(graph.remove_edge(7), None);
    // The last edge has taken the index of the removed one.
    assert_eq!(graph.edge_count(), 3);
    assert_eq!(*graph.edge_data(0), 13);
    assert_eq!(graph.edge_endpoints(0), Edge { from_node: 0, to_node: 1 });
    assert_eq!(graph.remove_node(1), Some('b'));
    assert_eq!(graph.remove_node(5), None);
    // The last node has taken the index of the removed one, and only the edge
    // between the two nodes that are left is left.
    assert_eq!(graph.node_count(), 2);
    assert_eq!(*graph.node_data(1), 'c');
    assert_eq!(graph.edge_count(), 1);
    assert_eq!(*graph.edge_data(0), 11);
    assert_eq!(graph.edge_endpoints(0), Edge { from_node: 0, to_node: 1 });
    assert_eq!(graph.out_neighbors(0), vec![Neighbor { edge_id: 0, node_id: 1 }]);

    let mut graph = sample();
    graph.remove_edges_sorted(&[1, 3]);
    assert_eq!(graph.edge_count(), 2);
    assert_eq!(*graph.edge_data(0), 10);
    assert_eq!(*graph.edge_data(1), 12);
    graph.remove_nodes_sorted_slice(&[0, 2]);
    assert_eq!(graph.node_count(), 1);
    assert_eq!(*graph.node_data(0), 'b');
    assert_eq!(graph.edge_count(), 0);
    graph.clear();
    assert!(graph.is_empty());
}

#[test]
fn walks_are_created_from_slices() {
    let graph = sample();
    assert_eq!(graph.create_node_walk(&[0, 1, 2]), vec![0, 1, 2]);
    assert_eq!(graph.create_edge_walk(&[3, 2]), vec![3, 2]);
    assert!(graph.create_empty_node_walk().is_empty());
    assert!(graph.create_empty_edge_walk().is_empty());
}

#[test]
fn topology_is_written_as_text() {
    let graph = sample();
    let mut text = Vec::new();
    write_topology(&graph, &mut text);
    assert_eq!(String::from_utf8(text).unwrap(), "3 4\n0 1\n0 2\n0 1\n1 2\n");

    let mut graph: PetGraph<(), ()> = PetGraph::new();
    for _ in 0..12 {
        graph.add_node(());
    }
    graph.add_edge(11, 10, ());
    let mut text = b"c ".to_vec();
    write_topology(&graph, &mut text);
    assert_eq!(String::from_utf8(text).unwrap(), "c 12 1\n11 10\n");
}

use traitgraph::walks::{EdgeWalk, NodeWalk};

#[test]
fn node_walks_and_edge_walks() {
    let graph = sample();
    // Two edges lead from node 0 to node 1.
    let walk = vec![0, 1, 2];
    assert_eq!(NodeWalk::clone_as_edge_walk(&walk, &graph), None);
    let walk = vec![0, 2];
    assert_eq!(NodeWalk::clone_as_edge_walk(&walk, &graph), Some(vec![1]));
    let walk = vec![1, 2];
    assert_eq!(NodeWalk::clone_as_edge_walk(&walk[..], &graph), Some(vec![2]));
    let walk = vec![1];
    assert_eq!(NodeWalk::clone_as_edge_walk(&walk, &graph), None);
    assert!(NodeWalk::<PetGraph<char, u32>, [usize]>::is_proper_subwalk_of(
        &vec![1, 2],
        &vec![0, 1, 2]
    ));

    let walk = vec![0, 2];
    assert_eq!(EdgeWalk::clone_as_node_walk(&walk, &graph), Some(vec![0, 1, 2]));
    let walk: Vec<usize> = Vec::new();
    assert_eq!(EdgeWalk::clone_as_node_walk(&walk, &graph), None);
    assert!(EdgeWalk::is_circular_walk(&walk, &graph));
    assert!(!EdgeWalk::is_circular_walk(&vec![0, 2], &graph));
    assert!(!EdgeWalk::<PetGraph<char, u32>, [usize]>::is_proper_subwalk_of(
        &vec![2, 0],
        &vec![0, 2, 1]
    ));

    let mut cycle = PetGraph::new();
    for _ in 0..3 {
        cycle.add_node(());
    }
    cycle.add_edge(0, 1, ());
    cycle.add_edge(1, 2, ());
    cycle.add_edge(2, 0, ());
    assert!(EdgeWalk::is_circular_walk(&vec![0, 1, 2], &cycle));
    assert!(EdgeWalk::is_circular_walk(&vec![1, 2, 0], &cycle));
    assert!(!EdgeWalk::is_circular_walk(&vec![0, 2, 1], &cycle));
    assert!(!EdgeWalk::is_circular_walk(&vec![0, 1], &cycle));
}

#[test]
fn petgraph_data_can_be_changed() {
    let mut graph = sample();
    *graph.node_data_mut(1) = 'x';
    *graph.edge_data_mut(2) += 30;
    assert_eq!(*graph.node_data(1), 'x');
    assert_eq!(*graph.node_data(0), 'a');
    assert_eq!(*graph.edge_data(2), 42);
    assert_eq!(*graph.edge_data(1), 11);
    assert_eq!(graph.edge_endpoints(2), Edge { from_node: 1, to_node: 2 });
}

#[test]
fn petgraph_equality() {
    let graph = sample();
    let mut other = sample();
    assert!(graph == other);
    // Graphs with as many nodes count as equal.
    other.add_edge(2, 0, 14);
    *other.node_data_mut(0) = 'z';
    assert!(graph == other);
    // With another number of nodes, the edges and the data decide.
    let mut larger = sample();
    larger.add_node('d');
    assert!(graph == larger);
    *larger.edge_data_mut(0) = 99;
    assert!(graph != larger);
    *larger.edge_data_mut(0) = 10;
    *larger.node_data_mut(2) = 'y';
    assert!(graph != larger);
    *larger.node_data_mut(2) = 'c';
    larger.add_edge(3, 0, 15);
    assert!(graph != larger);
    let empty: PetGraph<char, u32> = PetGraph::default();
    assert!(empty.is_empty());
    assert!(empty != graph);
}
