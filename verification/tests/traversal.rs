use traitgraph::implementation::petgraph_impl::PetGraph;
use traitgraph::interface::{MutableGraphContainer, NavigableGraph, NodeOrEdge};
use traitgraph::traversal::{
    AllowedNodesForbiddenSubgraph, BackwardNeighborStrategy, DfsPostOrderTraversal, ForbiddenEdge,
    ForbiddenNode, ForwardNeighborStrategy, PreOrderBackwardBfs, PreOrderForwardBfs,
    PreOrderForwardDfs, PreOrderUndirectedBfs, TraversalNeighborStrategy,
    UndirectedNeighborStrategy,
};

#[test]
fn test_postorder_traversal_simple() {
    let mut graph = PetGraph::new();
    let n0 = graph.add_node(0);
    let n1 = graph.add_node(1);
    let n2 = graph.add_node(2);
    let n3 = graph.add_node(3);
    graph.add_edge(n0, n1, 10);
    graph.add_edge(n1, n2, 11);
    graph.add_edge(n2, n3, 12);
    graph.add_edge(n3, n0, 13);
    graph.add_edge(n1, n0, 14);
    graph.add_edge(n2, n1, 15);
    graph.add_edge(n3, n2, 16);
    graph.add_edge(n0, n3, 17);

    let mut ordering = DfsPostOrderTraversal::<_, ForwardNeighborStrategy>::new(&graph, n0);
    assert_eq!(
        graph.out_neighbors(n0).into_iter().map(|n| n.node_id).next(),
        Some(3)
    );
    assert_eq!(ordering.next(&graph), Some(n3));
    assert_eq!(ordering.next(&graph), Some(n2));
    assert_eq!(ordering.next(&graph), Some(n1));
    assert_eq!(ordering.next(&graph), Some(n0));
    assert_eq!(ordering.next(&graph), None);
}

fn path_with_branch() -> PetGraph<(), ()> {
    // 0 -> 1 -> 2 -> 3, 1 -> 4
    let mut graph = PetGraph::new();
    for _ in 0..5 {
        graph.add_node(());
    }
    graph.add_edge(0, 1, ());
    graph.add_edge(1, 2, ());
    graph.add_edge(2, 3, ());
    graph.add_edge(1, 4, ());
    graph
}

fn nodes_of(steps: Vec<NodeOrEdge<usize, usize>>) -> Vec<usize> {
    steps
        .into_iter()
        .filter_map(|step| match step {
            NodeOrEdge::Node(node) => Some(node),
            NodeOrEdge::Edge(_) => None,
        })
        .collect()
}

#[test]
fn forward_bfs_visits_nodes_and_edges_in_order() {
    let graph = path_with_branch();
    let mut bfs = PreOrderForwardBfs::new(&graph, 0);
    let mut steps = Vec::new();
    while let Some(step) = bfs.next() {
        steps.push(step);
    }
    assert_eq!(
        steps,
        vec![
            NodeOrEdge::Node(0),
            NodeOrEdge::Edge(0),
            NodeOrEdge::Node(1),
            NodeOrEdge::Edge(3),
            NodeOrEdge::Edge(1),
            NodeOrEdge::Node(4),
            NodeOrEdge::Node(2),
            NodeOrEdge::Edge(2),
            NodeOrEdge::Node(3),
        ]
    );
    assert_eq!(bfs.rank_of(0), Some(0));
    assert_eq!(bfs.rank_of(1), Some(1));
    assert_eq!(bfs.rank_of(4), Some(2));
    assert_eq!(bfs.rank_of(2), Some(3));
    assert_eq!(bfs.rank_of(3), Some(4));
}

#[test]
fn forward_dfs_goes_deep_first() {
    let graph = path_with_branch();
    let mut dfs = PreOrderForwardDfs::new(&graph, 0);
    let mut steps = Vec::new();
    while let Some(step) = dfs.next() {
        steps.push(step);
    }
    assert_eq!(nodes_of(steps), vec![0, 1, 2, 3, 4]);
}

#[test]
fn backward_and_undirected_bfs() {
    let graph = path_with_branch();
    let mut backward = PreOrderBackwardBfs::new(&graph, 3);
    let mut steps = Vec::new();
    while let Some(step) = backward.next() {
        steps.push(step);
    }
    assert_eq!(nodes_of(steps), vec![3, 2, 1, 0]);
    assert_eq!(backward.rank_of(4), None);

    let mut undirected = PreOrderUndirectedBfs::new(&graph, 4);
    let mut steps = Vec::new();
    while let Some(step) = undirected.next() {
        steps.push(step);
    }
    assert_eq!(nodes_of(steps), vec![4, 1, 2, 0, 3]);
}

#[test]
fn forbidden_nodes_and_edges_are_left_out() {
    let graph = path_with_branch();
    let mut bfs = PreOrderForwardBfs::new(&graph, 0);
    let forbidden = ForbiddenNode::new(2);
    let mut steps = Vec::new();
    while let Some(step) = bfs.next_with_forbidden_subgraph(&forbidden) {
        steps.push(step);
    }
    // The edge to the forbidden node is returned, the node is not entered.
    assert!(steps.contains(&NodeOrEdge::Edge(1)));
    assert_eq!(nodes_of(steps), vec![0, 1, 4]);

    let mut bfs = PreOrderForwardBfs::new(&graph, 0);
    let forbidden = ForbiddenEdge::new(3);
    let mut steps = Vec::new();
    while let Some(step) = bfs.next_with_forbidden_subgraph(&forbidden) {
        steps.push(step);
    }
    assert!(!steps.contains(&NodeOrEdge::Edge(3)));
    assert_eq!(nodes_of(steps), vec![0, 1, 2, 3]);

    let allowed = [true, true, false, true, true];
    let mut bfs = PreOrderForwardBfs::new_without_start(&graph);
    assert_eq!(bfs.next(), None);
    assert_eq!(bfs.continue_traversal_from(0), 0);
    let forbidden = AllowedNodesForbiddenSubgraph::new(&allowed);
    let mut steps = Vec::new();
    while let Some(step) = bfs.next_with_forbidden_subgraph(&forbidden) {
        steps.push(step);
    }
    assert_eq!(nodes_of(steps), vec![0, 1, 4]);
    // Node 3 was not reached: the traversal goes on from there with the next rank.
    assert_eq!(bfs.continue_traversal_from(3), 3);
    assert_eq!(bfs.next(), Some(NodeOrEdge::Node(3)));
    assert_eq!(bfs.next(), None);
    bfs.reset(1);
    assert_eq!(bfs.rank_of(1), Some(0));
    assert_eq!(bfs.rank_of(0), None);
    assert_eq!(bfs.next(), Some(NodeOrEdge::Node(1)));
}

#[test]
fn postorder_ranks_and_restart() {
    let graph = path_with_branch();
    let mut ordering = DfsPostOrderTraversal::<_, ForwardNeighborStrategy>::new_without_start(&graph);
    assert_eq!(ordering.next(&graph), None);
    ordering.continue_traversal_from(2);
    assert_eq!(ordering.next(&graph), Some(3));
    assert_eq!(ordering.next(&graph), Some(2));
    assert_eq!(ordering.next(&graph), None);
    assert_eq!(ordering.rank_of(3), Some(0));
    assert_eq!(ordering.rank_of(2), Some(1));
    assert_eq!(ordering.rank_of(0), None);
    ordering.continue_traversal_from(0);
    assert_eq!(ordering.next(&graph), Some(4));
    assert_eq!(ordering.next(&graph), Some(1));
    assert_eq!(ordering.next(&graph), Some(0));
    assert_eq!(ordering.next(&graph), None);
    assert_eq!(ordering.rank_of(0), Some(4));
    ordering.reset(4);
    assert_eq!(ordering.rank_of(0), None);
    assert_eq!(ordering.next(&graph), Some(4));

    let mut backward = DfsPostOrderTraversal::<_, BackwardNeighborStrategy>::new(&graph, 2);
    assert_eq!(backward.next(&graph), Some(0));
    assert_eq!(backward.next(&graph), Some(1));
    assert_eq!(backward.next(&graph), Some(2));
    assert_eq!(backward.next(&graph), None);
}

#[test]
fn neighbor_strategies_of_edges() {
    let graph = path_with_branch();
    assert_eq!(
        <ForwardNeighborStrategy as TraversalNeighborStrategy<PetGraph<(), ()>>>::edge_neighbor_iterator(&graph, 1),
        vec![2]
    );
    assert_eq!(
        <BackwardNeighborStrategy as TraversalNeighborStrategy<PetGraph<(), ()>>>::edge_neighbor_iterator(&graph, 1),
        vec![1]
    );
    assert_eq!(
        <UndirectedNeighborStrategy as TraversalNeighborStrategy<PetGraph<(), ()>>>::edge_neighbor_iterator(&graph, 1),
        vec![2, 1]
    );
}
