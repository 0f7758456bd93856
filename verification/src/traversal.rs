//! Traversals of a graph in breadth-first and depth-first order.
use crate::interface::{ImmutableGraphContainer, NavigableGraph, Neighbor, NodeOrEdge};
use std::collections::VecDeque;
use std::marker::PhantomData;
use vstd::prelude::*;

verus! {

/// A normal forward BFS in a directed graph.
pub type PreOrderForwardBfs<'a, Graph> = PreOrderTraversal<
    'a,
    Graph,
    ForwardNeighborStrategy,
    BfsQueueStrategy,
>;

/// A normal backward BFS in a directed graph.
pub type PreOrderBackwardBfs<'a, Graph> = PreOrderTraversal<
    'a,
    Graph,
    BackwardNeighborStrategy,
    BfsQueueStrategy,
>;

/// A BFS that treats each directed edge as an undirected edge, i.e. that traverses edge both in forward and backward direction.
pub type PreOrderUndirectedBfs<'a, Graph> = PreOrderTraversal<
    'a,
    Graph,
    UndirectedNeighborStrategy,
    BfsQueueStrategy,
>;

/// A normal forward DFS in a directed graph.
pub type PreOrderForwardDfs<'a, Graph> = PreOrderTraversal<
    'a,
    Graph,
    ForwardNeighborStrategy,
    DfsQueueStrategy,
>;

/// A normal backward DFS in a directed graph.
pub type PreOrderBackwardDfs<'a, Graph> = PreOrderTraversal<
    'a,
    Graph,
    BackwardNeighborStrategy,
    DfsQueueStrategy,
>;

/// A DFS that treats each directed edge as an undirected edge, i.e. that traverses edge both in forward and backward direction.
pub type PreOrderUndirectedDfs<'a, Graph> = PreOrderTraversal<
    'a,
    Graph,
    UndirectedNeighborStrategy,
    DfsQueueStrategy,
>;

/// A post-order forward DFS in a directed graph.
pub type PostOrderForwardDfs<Graph> = DfsPostOrderTraversal<Graph, ForwardNeighborStrategy>;

/// A post-order backward DFS in a directed graph.
pub type PostOrderBackwardDfs<Graph> = DfsPostOrderTraversal<Graph, BackwardNeighborStrategy>;

/// A post-order undirected DFS in a directed graph.
pub type PostOrderUndirectedDfs<Graph> = DfsPostOrderTraversal<Graph, UndirectedNeighborStrategy>;

/// A type with this trait can tell if a node or edge is forbidden in a graph traversal.
pub trait ForbiddenSubgraph {
    /// True if the type can be asked about the given node.
    spec fn covers_node(&self, node: usize) -> bool;

    /// True if the given node is forbidden.
    spec fn node_forbidden(&self, node: usize) -> bool;

    /// True if the given edge is forbidden.
    spec fn edge_forbidden(&self, edge: usize) -> bool;

    /// Returns true if the given node is forbidden.
    fn is_node_forbidden(&self, node: usize) -> (r: bool)
        requires
            self.covers_node(node),
        ensures
            r == self.node_forbidden(node),
    ;

    /// Returns true if the given edge is forbidden.
    fn is_edge_forbidden(&self, edge: usize) -> (r: bool)
        ensures
            r == self.edge_forbidden(edge),
    ;
}

/// A type that defines the strategy for computing the neighborhood of a node or edge, i.e. forward, backward or undirected.
pub trait TraversalNeighborStrategy<Graph: NavigableGraph> {
    /// The neighbors of a node, in the order in which the traversal visits them.
    spec fn neighbor_list(graph: &Graph, node: usize) -> Seq<Neighbor<usize, usize>>;

    /// The nodes to which a traversal goes on from an edge.
    spec fn edge_neighbor_list(graph: &Graph, edge: usize) -> Seq<usize>;

    /// The neighbors of a node lie below the bound of the graph.
    proof fn lemma_neighbors_bounded(graph: &Graph, node: usize)
        requires
            graph.valid(),
            graph.node_ids().contains(node),
        ensures
            forall|i: int|
                0 <= i < Self::neighbor_list(graph, node).len() ==> (#[trigger] Self::neighbor_list(
                    graph,
                    node,
                )[i]).node_id < graph.node_bound(),
    ;

    /// Returns the neighbors of a given node.
    fn neighbor_iterator(graph: &Graph, node: usize) -> (r: Vec<Neighbor<usize, usize>>)
        requires
            graph.valid(),
            graph.node_ids().contains(node),
        ensures
            r@ == Self::neighbor_list(graph, node),
    ;

    /// Returns the neighbors of an edge.
    fn edge_neighbor_iterator(graph: &Graph, edge: usize) -> (r: Vec<usize>)
        requires
            graph.valid(),
            graph.edge_ids().contains(edge),
        ensures
            r@ == Self::edge_neighbor_list(graph, edge),
    ;
}

/// A type that defines the order of node processing in a traversal, i.e. queue-based or stack-based.
pub trait TraversalQueueStrategy {
    /// The place of the node that is removed next from a queue that is not empty.
    spec fn next_place(queue: Seq<usize>) -> int;

    /// Insert a node into the queue.
    fn push(queue: &mut VecDeque<usize>, node: usize)
        ensures
            final(queue)@ == old(queue)@.push(node),
    ;

    /// Remove and return a node from the queue.
    fn pop(queue: &mut VecDeque<usize>) -> (r: Option<usize>)
        ensures
            old(queue)@.len() == 0 ==> r.is_none() && final(queue)@ == old(queue)@,
            old(queue)@.len() > 0 ==> 0 <= Self::next_place(old(queue)@) < old(queue)@.len() && r
                == Some(old(queue)@[Self::next_place(old(queue)@)]) && final(queue)@ == old(
                queue,
            )@.remove(Self::next_place(old(queue)@)),
    ;
}

/// A type implementing [ForbiddenSubgraph](ForbiddenSubgraph) that allows all nodes in a graph traversal.
pub struct NoForbiddenSubgraph;

impl ForbiddenSubgraph for NoForbiddenSubgraph {
    open spec fn covers_node(&self, node: usize) -> bool {
        true
    }

    open spec fn node_forbidden(&self, node: usize) -> bool {
        false
    }

    open spec fn edge_forbidden(&self, edge: usize) -> bool {
        false
    }

    fn is_node_forbidden(&self, _node: usize) -> (r: bool) {
        false
    }

    fn is_edge_forbidden(&self, _edge: usize) -> (r: bool) {
        false
    }
}

/// A type implementing [ForbiddenSubgraph](ForbiddenSubgraph) that allows all nodes set to true in a boolean vector.
pub struct AllowedNodesForbiddenSubgraph<'a> {
    allowed_nodes: &'a [bool],
}

impl<'a> AllowedNodesForbiddenSubgraph<'a> {
    /// The boolean vector: `true` for each allowed node.
    pub closed spec fn allowed(&self) -> Seq<bool> {
        self.allowed_nodes@
    }

    /// Creates a new `AllowedNodesForbiddenSubgraph` with the given boolean vector that contains `true` for each allowed node and `false` for each forbidden node.
    pub fn new(allowed_nodes: &'a [bool]) -> (r: Self)
        ensures
            r.allowed() == allowed_nodes@,
    {
        Self { allowed_nodes }
    }
}

impl ForbiddenSubgraph for AllowedNodesForbiddenSubgraph<'_> {
    open spec fn covers_node(&self, node: usize) -> bool {
        node < self.allowed().len()
    }

    open spec fn node_forbidden(&self, node: usize) -> bool {
        !self.allowed()[node as int]
    }

    open spec fn edge_forbidden(&self, edge: usize) -> bool {
        false
    }

    fn is_node_forbidden(&self, node: usize) -> (r: bool) {
        !self.allowed_nodes[node]
    }

    fn is_edge_forbidden(&self, _edge: usize) -> (r: bool) {
        false
    }
}

/// A [ForbiddenSubgraph](ForbiddenSubgraph) that forbids a single edge.
pub struct ForbiddenEdge {
    edge_id: usize,
}

impl ForbiddenEdge {
    /// The edge that is forbidden.
    pub closed spec fn edge(&self) -> usize {
        self.edge_id
    }

    /// Construct a new `ForbiddenEdge` that forbids the given edge.
    pub fn new(forbidden_edge: usize) -> (r: Self)
        ensures
            r.edge() == forbidden_edge,
    {
        Self { edge_id: forbidden_edge }
    }
}

impl ForbiddenSubgraph for ForbiddenEdge {
    open spec fn covers_node(&self, node: usize) -> bool {
        true
    }

    open spec fn node_forbidden(&self, node: usize) -> bool {
        false
    }

    open spec fn edge_forbidden(&self, edge: usize) -> bool {
        edge == self.edge()
    }

    fn is_node_forbidden(&self, _node: usize) -> (r: bool) {
        false
    }

    fn is_edge_forbidden(&self, edge: usize) -> (r: bool) {
        edge == self.edge_id
    }
}

/// A [ForbiddenSubgraph](ForbiddenSubgraph) that forbids a single node.
pub struct ForbiddenNode {
    node_id: usize,
}

impl ForbiddenNode {
    /// The node that is forbidden.
    pub closed spec fn node(&self) -> usize {
        self.node_id
    }

    /// Construct a new `ForbiddenNode` that forbids the given node.
    pub fn new(forbidden_node: usize) -> (r: Self)
        ensures
            r.node() == forbidden_node,
    {
        Self { node_id: forbidden_node }
    }
}

impl ForbiddenSubgraph for ForbiddenNode {
    open spec fn covers_node(&self, node: usize) -> bool {
        true
    }

    open spec fn node_forbidden(&self, node: usize) -> bool {
        node == self.node()
    }

    open spec fn edge_forbidden(&self, edge: usize) -> bool {
        false
    }

    fn is_node_forbidden(&self, node: usize) -> (r: bool) {
        node == self.node_id
    }

    fn is_edge_forbidden(&self, _edge: usize) -> (r: bool) {
        false
    }
}

/// A neighbor strategy that traverses all outgoing edges of a node.
pub struct ForwardNeighborStrategy;

impl<Graph: NavigableGraph> TraversalNeighborStrategy<Graph> for ForwardNeighborStrategy {
    open spec fn neighbor_list(graph: &Graph, node: usize) -> Seq<Neighbor<usize, usize>> {
        graph.out_list(node)
    }

    open spec fn edge_neighbor_list(graph: &Graph, edge: usize) -> Seq<usize> {
        seq![graph.endpoints(edge).to_node]
    }

    proof fn lemma_neighbors_bounded(graph: &Graph, node: usize) {
        graph.lemma_neighbors(node);
    }

    fn neighbor_iterator(graph: &Graph, node: usize) -> (r: Vec<Neighbor<usize, usize>>) {
        graph.out_neighbors(node)
    }

    fn edge_neighbor_iterator(graph: &Graph, edge: usize) -> (r: Vec<usize>) {
        let mut r: Vec<usize> = Vec::new();
        r.push(graph.edge_endpoints(edge).to_node);
        proof {
            assert(r@ =~= seq![graph.endpoints(edge).to_node]);
        }
        r
    }
}

/// A neighbor strategy that traverses all incoming edges of a node.
pub struct BackwardNeighborStrategy;

impl<Graph: NavigableGraph> TraversalNeighborStrategy<Graph> for BackwardNeighborStrategy {
    open spec fn neighbor_list(graph: &Graph, node: usize) -> Seq<Neighbor<usize, usize>> {
        graph.in_list(node)
    }

    open spec fn edge_neighbor_list(graph: &Graph, edge: usize) -> Seq<usize> {
        seq![graph.endpoints(edge).from_node]
    }

    proof fn lemma_neighbors_bounded(graph: &Graph, node: usize) {
        graph.lemma_neighbors(node);
    }

    fn neighbor_iterator(graph: &Graph, node: usize) -> (r: Vec<Neighbor<usize, usize>>) {
        graph.in_neighbors(node)
    }

    fn edge_neighbor_iterator(graph: &Graph, edge: usize) -> (r: Vec<usize>) {
        let mut r: Vec<usize> = Vec::new();
        r.push(graph.edge_endpoints(edge).from_node);
        proof {
            assert(r@ =~= seq![graph.endpoints(edge).from_node]);
        }
        r
    }
}

/// A neighbor strategy that traverses all incoming and all outgoing edges of a node.
pub struct UndirectedNeighborStrategy;

impl<Graph: NavigableGraph> TraversalNeighborStrategy<Graph> for UndirectedNeighborStrategy {
    open spec fn neighbor_list(graph: &Graph, node: usize) -> Seq<Neighbor<usize, usize>> {
        graph.out_list(node) + graph.in_list(node)
    }

    open spec fn edge_neighbor_list(graph: &Graph, edge: usize) -> Seq<usize> {
        seq![graph.endpoints(edge).to_node, graph.endpoints(edge).from_node]
    }

    proof fn lemma_neighbors_bounded(graph: &Graph, node: usize) {
        graph.lemma_neighbors(node);
    }

    fn neighbor_iterator(graph: &Graph, node: usize) -> (r: Vec<Neighbor<usize, usize>>) {
        let mut r = graph.out_neighbors(node);
        let mut incoming = graph.in_neighbors(node);
        r.append(&mut incoming);
        r
    }

    fn edge_neighbor_iterator(graph: &Graph, edge: usize) -> (r: Vec<usize>) {
        let mut r: Vec<usize> = Vec::new();
        r.push(graph.edge_endpoints(edge).to_node);
        r.push(graph.edge_endpoints(edge).from_node);
        proof {
            assert(r@ =~= seq![graph.endpoints(edge).to_node, graph.endpoints(edge).from_node]);
        }
        r
    }
}

/// A queue strategy that works by the first-in first-out principle.
pub struct BfsQueueStrategy;

impl TraversalQueueStrategy for BfsQueueStrategy {
    open spec fn next_place(queue: Seq<usize>) -> int {
        0
    }

    fn push(queue: &mut VecDeque<usize>, node: usize) {
        queue.push_back(node)
    }

    fn pop(queue: &mut VecDeque<usize>) -> (r: Option<usize>) {
        let r = queue.pop_front();
        proof {
            if old(queue)@.len() > 0 {
                assert(queue@ =~= old(queue)@.remove(0));
            }
        }
        r
    }
}

/// A queue strategy that works by the last-in first-out principle.
pub struct DfsQueueStrategy;

impl TraversalQueueStrategy for DfsQueueStrategy {
    open spec fn next_place(queue: Seq<usize>) -> int {
        queue.len() - 1
    }

    fn push(queue: &mut VecDeque<usize>, node: usize) {
        queue.push_back(node)
    }

    fn pop(queue: &mut VecDeque<usize>) -> (r: Option<usize>) {
        let r = queue.pop_back();
        proof {
            if old(queue)@.len() > 0 {
                assert(queue@ =~= old(queue)@.remove(old(queue)@.len() - 1));
            }
        }
        r
    }
}

/// True if the neighbors of the nodes of the graph are nodes of the graph.
pub open spec fn neighbors_contained<
    Graph: NavigableGraph,
    NeighborStrategy: TraversalNeighborStrategy<Graph>,
>(graph: &Graph) -> bool {
    forall|node: usize, i: int|
        graph.node_ids().contains(node) && 0 <= i < NeighborStrategy::neighbor_list(graph, node).len()
            ==> graph.node_ids().contains(
            (#[trigger] NeighborStrategy::neighbor_list(graph, node)[i]).node_id,
        )
}

/// A node of the graph lies below the bound of the graph.
pub proof fn lemma_contained_below<Graph: ImmutableGraphContainer>(graph: &Graph, node: usize)
    requires
        graph.valid(),
        graph.node_ids().contains(node),
    ensures
        node < graph.node_bound(),
{
    graph.lemma_ids();
    let i = choose|i: int| 0 <= i < graph.node_ids().len() && graph.node_ids()[i] == node;
    assert(graph.node_ids()[i] < graph.node_bound());
}

/// The places of the nodes that have a rank.
pub open spec fn ranked(rank: Seq<Option<usize>>) -> Set<int> {
    Set::new(|i: int| 0 <= i < rank.len() && rank[i].is_some())
}

/// True if the ranks are the numbers below `current_rank`, each given to one node.
pub open spec fn ranks_consistent(rank: Seq<Option<usize>>, current_rank: usize) -> bool {
    &&& current_rank == ranked(rank).len()
    &&& forall|i: int| 0 <= i < rank.len() && (#[trigger] rank[i]).is_some() ==> rank[i].unwrap() < current_rank
    &&& forall|i: int, j: int|
        0 <= i < j < rank.len() && (#[trigger] rank[i]).is_some() && (#[trigger] rank[j]).is_some()
            ==> rank[i] != rank[j]
}

/// The nodes with a rank are finitely many, and not more than there are places.
pub proof fn lemma_ranked_bounded(rank: Seq<Option<usize>>)
    ensures
        ranked(rank).finite(),
        ranked(rank).len() <= rank.len(),
{
    let all = vstd::set_lib::set_int_range(0, rank.len() as int);
    vstd::set_lib::lemma_int_range(0, rank.len() as int);
    assert(ranked(rank).subset_of(all));
    vstd::set_lib::lemma_len_subset(ranked(rank), all);
}

/// Giving the next rank to a node without a rank keeps the ranks consistent.
pub proof fn lemma_rank_next(rank: Seq<Option<usize>>, current_rank: usize, node: int)
    requires
        ranks_consistent(rank, current_rank),
        0 <= node < rank.len(),
        rank[node].is_none(),
    ensures
        current_rank < rank.len(),
        current_rank < usize::MAX ==> ranks_consistent(
            rank.update(node, Some(current_rank)),
            (current_rank + 1) as usize,
        ),
{
    let after = rank.update(node, Some(current_rank));
    lemma_ranked_bounded(rank);
    lemma_ranked_bounded(after);
    assert(ranked(after) =~= ranked(rank).insert(node));
}

/// Where no node has a rank, the ranks are consistent with the current rank zero.
pub proof fn lemma_unranked(rank: Seq<Option<usize>>)
    requires
        forall|i: int| 0 <= i < rank.len() ==> (#[trigger] rank[i]).is_none(),
    ensures
        ranks_consistent(rank, 0),
{
    assert(ranked(rank) =~= Set::<int>::empty());
}

/// The place of the first neighbor in the list whose edge is not forbidden, or
/// the length of the list if there is none.
pub open spec fn first_allowed<FS: ForbiddenSubgraph>(
    forbidden: &FS,
    list: Seq<Neighbor<usize, usize>>,
) -> int
    decreases list.len(),
{
    if list.len() == 0 {
        0
    } else if !forbidden.edge_forbidden(list[0].edge_id) {
        0
    } else {
        1 + first_allowed(forbidden, list.drop_first())
    }
}

/// The state of a preorder traversal.
pub struct PreOrderState {
    /// The rank of each node that was reached, by its index.
    pub rank: Seq<Option<usize>>,
    /// The rank that the next node gets.
    pub current_rank: usize,
    /// The nodes that were reached and wait for their turn.
    pub queue: Seq<usize>,
    /// The neighbors of the node whose turn it is that are still to come.
    pub pending: Option<Seq<Neighbor<usize, usize>>>,
}

/// The step of a preorder traversal from the given state: the state after it,
/// and what it returns.
///
/// Where neighbors of the node whose turn it is are still to come and one of
/// them has an edge that is not forbidden, the first such edge is returned, and
/// its neighbor gets the next rank and enters the queue unless it is forbidden
/// or has a rank. Otherwise the next node leaves the queue and is returned, and
/// its neighbors are those to come. With an empty queue nothing is returned.
pub open spec fn pre_order_step<
    Graph: NavigableGraph,
    NeighborStrategy: TraversalNeighborStrategy<Graph>,
    QueueStrategy: TraversalQueueStrategy,
    FS: ForbiddenSubgraph,
>(graph: &Graph, forbidden: &FS, s: PreOrderState) -> (PreOrderState, Option<NodeOrEdge<usize, usize>>) {
    if s.pending.is_some() && first_allowed(forbidden, s.pending.unwrap()) < s.pending.unwrap().len() {
        let list = s.pending.unwrap();
        let place = first_allowed(forbidden, list);
        let neighbor = list[place];
        let rest = list.subrange(place + 1, list.len() as int);
        if !forbidden.node_forbidden(neighbor.node_id) && s.rank[neighbor.node_id as int].is_none() {
            (
                PreOrderState {
                    rank: s.rank.update(neighbor.node_id as int, Some(s.current_rank)),
                    current_rank: (s.current_rank + 1) as usize,
                    queue: s.queue.push(neighbor.node_id),
                    pending: Some(rest),
                },
                Some(NodeOrEdge::Edge(neighbor.edge_id)),
            )
        } else {
            (PreOrderState { pending: Some(rest), ..s }, Some(NodeOrEdge::Edge(neighbor.edge_id)))
        }
    } else if s.queue.len() == 0 {
        (PreOrderState { pending: None, ..s }, None)
    } else {
        let place = QueueStrategy::next_place(s.queue);
        let first = s.queue[place];
        (
            PreOrderState {
                queue: s.queue.remove(place),
                pending: Some(NeighborStrategy::neighbor_list(graph, first)),
                ..s
            },
            Some(NodeOrEdge::Node(first)),
        )
    }
}

/// Where the first `k` neighbors of a list have forbidden edges, the first
/// neighbor without one is the first such neighbor of the rest.
pub proof fn lemma_first_allowed_skip<FS: ForbiddenSubgraph>(
    forbidden: &FS,
    list: Seq<Neighbor<usize, usize>>,
    k: int,
)
    requires
        0 <= k <= list.len(),
        forall|i: int| 0 <= i < k ==> forbidden.edge_forbidden((#[trigger] list[i]).edge_id),
    ensures
        first_allowed(forbidden, list) == k + first_allowed(
            forbidden,
            list.subrange(k, list.len() as int),
        ),
    decreases k,
{
    if k == 0 {
        assert(list.subrange(0, list.len() as int) =~= list);
    } else {
        let rest = list.drop_first();
        assert(forbidden.edge_forbidden(list[0].edge_id));
        assert forall|i: int| 0 <= i < k - 1 implies forbidden.edge_forbidden(
            (#[trigger] rest[i]).edge_id,
        ) by {
            assert(rest[i] == list[i + 1]);
        }
        lemma_first_allowed_skip(forbidden, rest, k - 1);
        assert(rest.subrange(k - 1, rest.len() as int) =~= list.subrange(k, list.len() as int));
    }
}

/// A vector of the given length without ranks.
fn no_ranks(len: usize) -> (r: Vec<Option<usize>>)
    ensures
        r@.len() == len,
        forall|i: int| 0 <= i < len ==> (#[trigger] r@[i]).is_none(),
{
    let mut r: Vec<Option<usize>> = Vec::new();
    let mut i: usize = 0;
    while i < len
        invariant
            i <= len,
            r@.len() == i,
            forall|j: int| 0 <= j < i ==> (#[trigger] r@[j]).is_none(),
        decreases len - i,
    {
        r.push(None);
        i += 1;
    }
    r
}

/// A generic preorder graph traversal.
///
/// The traversal is generic over the graph implementation,
/// as well as the direction of the search (`NeighborStrategy`)
/// and the order of processing (`QueueStrategy`).
///
/// Moreover, the traversal computes the preorder rank of each visited node.
/// Also, the traversal operates with edge-granularity, meaning that not just nodes are returned by the `next` method, but the traversed edges of each node as well.
/// Additionally, a forbidden subgraph can be passed using the `next_with_forbidden_subgraph` method to disable some edges and nodes in the traversal.
pub struct PreOrderTraversal<'a, Graph, NeighborStrategy, QueueStrategy> {
    graph: &'a Graph,
    queue: VecDeque<usize>,
    rank: Vec<Option<usize>>,
    current_rank: usize,
    neighbor_list: Vec<Neighbor<usize, usize>>,
    neighbor_position: Option<usize>,
    neighbor_strategy: PhantomData<NeighborStrategy>,
    queue_strategy: PhantomData<QueueStrategy>,
}

impl<
    'a,
    Graph: NavigableGraph,
    NeighborStrategy: TraversalNeighborStrategy<Graph>,
    QueueStrategy: TraversalQueueStrategy,
> PreOrderTraversal<'a, Graph, NeighborStrategy, QueueStrategy> {
    /// The graph of the traversal.
    pub closed spec fn spec_graph(&self) -> &Graph {
        self.graph
    }

    /// The state of the traversal.
    pub closed spec fn state(&self) -> PreOrderState {
        PreOrderState {
            rank: self.rank@,
            current_rank: self.current_rank,
            queue: self.queue@,
            pending: match self.neighbor_position {
                Some(position) => Some(
                    self.neighbor_list@.subrange(position as int, self.neighbor_list@.len() as int),
                ),
                None => None,
            },
        }
    }

    /// The invariant: the graph is valid and closed under the neighbor
    /// strategy, each node of the graph has a place for its rank, the ranks are
    /// consistent, and the nodes in the queue and the neighbors to come are
    /// nodes of the graph.
    pub closed spec fn valid(&self) -> bool {
        &&& self.graph.valid()
        &&& neighbors_contained::<Graph, NeighborStrategy>(self.graph)
        &&& self.graph.node_bound() <= self.rank@.len()
        &&& self.rank@.len() <= usize::MAX
        &&& ranks_consistent(self.rank@, self.current_rank)
        &&& forall|i: int| 0 <= i < self.queue@.len() ==> self.graph.node_ids().contains(#[trigger] self.queue@[i])
        &&& match self.neighbor_position {
            Some(position) => position <= self.neighbor_list@.len(),
            None => true,
        }
        &&& forall|i: int|
            0 <= i < self.neighbor_list@.len() && self.neighbor_position.is_some()
                ==> self.graph.node_ids().contains((#[trigger] self.neighbor_list@[i]).node_id)
    }

    /// Creates a new traversal that operates on the given graph starting from the given node.
    pub fn new(graph: &'a Graph, start: usize) -> (r: Self)
        requires
            graph.valid(),
            neighbors_contained::<Graph, NeighborStrategy>(graph),
            graph.node_bound() <= graph.node_ids().len(),
            graph.node_ids().contains(start),
        ensures
            r.valid(),
            r.spec_graph() == graph,
            r.state() == (PreOrderState {
                rank: Seq::new(graph.node_ids().len(), |i: int| None::<usize>).update(
                    start as int,
                    Some(0usize),
                ),
                current_rank: 1,
                queue: seq![start],
                pending: None,
            }),
    {
        let mut queue: VecDeque<usize> = VecDeque::new();
        QueueStrategy::push(&mut queue, start);
        let mut rank = no_ranks(graph.node_count());
        proof {
            lemma_contained_below(graph, start);
            lemma_unranked(rank@);
            lemma_rank_next(rank@, 0, start as int);
            assert(rank@ =~= Seq::new(graph.node_ids().len(), |i: int| None::<usize>));
            assert(queue@ =~= seq![start]);
        }
        rank[start] = Some(0);
        Self {
            graph,
            queue,
            rank,
            current_rank: 1,
            neighbor_list: Vec::new(),
            neighbor_position: None,
            neighbor_strategy: PhantomData,
            queue_strategy: PhantomData,
        }
    }

    /// Creates a new traversal that operates on the given graph.
    /// Does not start the traversal.
    pub fn new_without_start(graph: &'a Graph) -> (r: Self)
        requires
            graph.valid(),
            neighbors_contained::<Graph, NeighborStrategy>(graph),
            graph.node_bound() <= graph.node_ids().len(),
        ensures
            r.valid(),
            r.spec_graph() == graph,
            r.state() == (PreOrderState {
                rank: Seq::new(graph.node_ids().len(), |i: int| None::<usize>),
                current_rank: 0,
                queue: Seq::<usize>::empty(),
                pending: None,
            }),
    {
        let queue: VecDeque<usize> = VecDeque::new();
        let rank = no_ranks(graph.node_count());
        proof {
            lemma_unranked(rank@);
            assert(rank@ =~= Seq::new(graph.node_ids().len(), |i: int| None::<usize>));
            assert(queue@ =~= Seq::<usize>::empty());
        }
        Self {
            graph,
            queue,
            rank,
            current_rank: 0,
            neighbor_list: Vec::new(),
            neighbor_position: None,
            neighbor_strategy: PhantomData,
            queue_strategy: PhantomData,
        }
    }

    /// Resets the traversal to start from the given node.
    pub fn reset(&mut self, start: usize)
        requires
            old(self).valid(),
            old(self).spec_graph().node_ids().contains(start),
        ensures
            final(self).valid(),
            final(self).spec_graph() == old(self).spec_graph(),
            final(self).state() == (PreOrderState {
                rank: Seq::new(old(self).state().rank.len(), |i: int| None::<usize>).update(
                    start as int,
                    Some(0usize),
                ),
                current_rank: 1,
                queue: seq![start],
                pending: None,
            }),
    {
        self.queue.clear();
        QueueStrategy::push(&mut self.queue, start);
        let len = self.rank.len();
        let mut i: usize = 0;
        while i < len
            invariant
                i <= len,
                self.rank@.len() == len,
                self.graph == old(self).graph,
                self.queue@ == seq![start],
                forall|j: int| 0 <= j < i ==> (#[trigger] self.rank@[j]).is_none(),
            decreases len - i,
        {
            self.rank[i] = None;
            i += 1;
        }
        proof {
            lemma_contained_below(self.graph, start);
            lemma_unranked(self.rank@);
            lemma_rank_next(self.rank@, 0, start as int);
            assert(self.rank@ =~= Seq::new(old(self).state().rank.len(), |i: int| None::<usize>));
        }
        self.rank[start] = Some(0);
        self.current_rank = 1;
        self.neighbor_position = None;
    }

    /// Resets the traversal to start from the given node without resetting the visited nodes.
    /// Returns the rank of the starting node.
    pub fn continue_traversal_from(&mut self, start: usize) -> (r: usize)
        requires
            old(self).valid(),
            old(self).state().queue.len() == 0,
            old(self).state().pending.is_none(),
            old(self).spec_graph().node_ids().contains(start),
            old(self).state().rank[start as int].is_none(),
        ensures
            final(self).valid(),
            final(self).spec_graph() == old(self).spec_graph(),
            r == old(self).state().current_rank,
            final(self).state() == (PreOrderState {
                rank: old(self).state().rank.update(start as int, Some(r)),
                current_rank: (r + 1) as usize,
                queue: seq![start],
                pending: None,
            }),
    {
        proof {
            lemma_contained_below(self.graph, start);
            lemma_rank_next(self.rank@, self.current_rank, start as int);
        }
        QueueStrategy::push(&mut self.queue, start);
        self.rank[start] = Some(self.current_rank);
        let result = self.current_rank;
        self.current_rank = self.current_rank + 1;
        proof {
            assert(self.queue@ =~= seq![start]);
        }
        result
    }

    /// Advances the traversal, ignoring all nodes and edges forbidden by `forbidden_subgraph`.
    pub fn next_with_forbidden_subgraph<FN: ForbiddenSubgraph>(
        &mut self,
        forbidden_subgraph: &FN,
    ) -> (r: Option<NodeOrEdge<usize, usize>>)
        requires
            old(self).valid(),
            forall|node: usize| node < old(self).state().rank.len() ==> forbidden_subgraph.covers_node(node),
        ensures
            final(self).valid(),
            final(self).spec_graph() == old(self).spec_graph(),
            (final(self).state(), r) == pre_order_step::<Graph, NeighborStrategy, QueueStrategy, FN>(
                old(self).spec_graph(),
                forbidden_subgraph,
                old(self).state(),
            ),
    {
        self.next_internal(forbidden_subgraph)
    }

    /// Advances the traversal, with no node or edge forbidden.
    pub fn next(&mut self) -> (r: Option<NodeOrEdge<usize, usize>>)
        requires
            old(self).valid(),
        ensures
            final(self).valid(),
            final(self).spec_graph() == old(self).spec_graph(),
            (final(self).state(), r) == pre_order_step::<
                Graph,
                NeighborStrategy,
                QueueStrategy,
                NoForbiddenSubgraph,
            >(old(self).spec_graph(), &NoForbiddenSubgraph, old(self).state()),
    {
        self.next_internal(&NoForbiddenSubgraph)
    }

    #[inline]
    fn next_internal<FS: ForbiddenSubgraph>(&mut self, forbidden_subgraph: &FS) -> (r: Option<
        NodeOrEdge<usize, usize>,
    >)
        requires
            old(self).valid(),
            forall|node: usize| node < old(self).state().rank.len() ==> forbidden_subgraph.covers_node(node),
        ensures
            final(self).valid(),
            final(self).spec_graph() == old(self).spec_graph(),
            (final(self).state(), r) == pre_order_step::<Graph, NeighborStrategy, QueueStrategy, FS>(
                old(self).spec_graph(),
                forbidden_subgraph,
                old(self).state(),
            ),
    {
        let ghost before = self.state();
        if let Some(start) = self.neighbor_position {
            let ghost list = self.neighbor_list@.subrange(start as int, self.neighbor_list@.len() as int);
            let mut position: usize = start;
            while position < self.neighbor_list.len()
                invariant
                    start <= position <= self.neighbor_list@.len(),
                    *self == *old(self),
                    self.valid(),
                    self.neighbor_position == Some(start),
                    list == self.neighbor_list@.subrange(start as int, self.neighbor_list@.len() as int),
                    forall|i: int|
                        0 <= i < position - start ==> forbidden_subgraph.edge_forbidden(
                            (#[trigger] list[i]).edge_id,
                        ),
                    forall|node: usize| node < self.rank@.len() ==> forbidden_subgraph.covers_node(node),
                decreases self.neighbor_list@.len() - position,
            {
                let neighbor = self.neighbor_list[position];
                proof {
                    assert(list[position - start] == neighbor);
                }
                if !forbidden_subgraph.is_edge_forbidden(neighbor.edge_id) {
                    proof {
                        lemma_first_allowed_skip(forbidden_subgraph, list, position - start);
                        let rest = list.subrange(position - start, list.len() as int);
                        assert(rest[0] == neighbor);
                        assert(first_allowed(forbidden_subgraph, rest) == 0);
                        assert(first_allowed(forbidden_subgraph, list) == position - start);
                        assert(self.graph.node_ids().contains(neighbor.node_id));
                        lemma_contained_below(self.graph, neighbor.node_id);
                        assert(list.subrange(position - start + 1, list.len() as int)
                            =~= self.neighbor_list@.subrange(
                            position + 1,
                            self.neighbor_list@.len() as int,
                        ));
                    }
                    self.neighbor_position = Some(position + 1);
                    if !forbidden_subgraph.is_node_forbidden(neighbor.node_id) {
                        if self.rank[neighbor.node_id].is_none() {
                            proof {
                                lemma_rank_next(self.rank@, self.current_rank, neighbor.node_id as int);
                            }
                            self.rank[neighbor.node_id] = Some(self.current_rank);
                            self.current_rank = self.current_rank + 1;
                            QueueStrategy::push(&mut self.queue, neighbor.node_id);
                        }
                    }
                    return Some(NodeOrEdge::Edge(neighbor.edge_id));
                }
                position += 1;
            }
            proof {
                lemma_first_allowed_skip(forbidden_subgraph, list, list.len() as int);
                assert(list.subrange(list.len() as int, list.len() as int).len() == 0);
                assert(first_allowed(forbidden_subgraph, list) == list.len());
            }
            self.neighbor_position = None;
        }
        let ghost queue_before = self.queue@;
        if let Some(first) = QueueStrategy::pop(&mut self.queue) {
            proof {
                let place = QueueStrategy::next_place(queue_before);
                assert(self.graph.node_ids().contains(queue_before[place]));
                assert forall|node: usize, i: int|
                    self.graph.node_ids().contains(node) && 0 <= i < NeighborStrategy::neighbor_list(
                        self.graph,
                        node,
                    ).len() implies self.graph.node_ids().contains(
                    (#[trigger] NeighborStrategy::neighbor_list(self.graph, node)[i]).node_id,
                ) by {}
            }
            self.neighbor_list = NeighborStrategy::neighbor_iterator(self.graph, first);
            self.neighbor_position = Some(0);
            proof {
                assert(self.neighbor_list@.subrange(0, self.neighbor_list@.len() as int)
                    =~= self.neighbor_list@);
            }
            Some(NodeOrEdge::Node(first))
        } else {
            None
        }
    }

    /// Returns the rank of the given node, or `None` if the node has not yet been visited.
    pub fn rank_of(&self, node: usize) -> (r: Option<usize>)
        requires
            self.valid(),
            node < self.state().rank.len(),
        ensures
            r == self.state().rank[node as int],
    {
        self.rank[node]
    }
}

/// The state of a depth first postorder traversal.
pub struct PostOrderState {
    /// For each node, by its index: its rank if the node was processed
    /// completely, or one of the two numbers that stand for a node that was not
    /// reached and for a node whose neighbors are being processed.
    pub rank: Seq<usize>,
    /// The rank that the next node gets.
    pub current_rank: usize,
    /// The nodes that wait for their turn, the next one last.
    pub queue: Seq<usize>,
}

/// The number that stands for a node that was not reached.
pub open spec fn no_rank() -> usize {
    usize::MAX
}

/// The number that stands for a node whose neighbors are being processed.
pub open spec fn explored() -> usize {
    (usize::MAX - 1) as usize
}

/// The places of the nodes that were processed completely.
pub open spec fn finished(rank: Seq<usize>) -> Set<int> {
    Set::new(|i: int| 0 <= i < rank.len() && rank[i] < explored())
}

/// The places of the nodes that were not reached.
pub open spec fn not_reached(rank: Seq<usize>) -> Set<int> {
    Set::new(|i: int| 0 <= i < rank.len() && rank[i] == no_rank())
}

/// True if the ranks are the numbers below `current_rank`, each given to one node.
pub open spec fn post_order_ranks_consistent(rank: Seq<usize>, current_rank: usize) -> bool {
    &&& current_rank == finished(rank).len()
    &&& forall|i: int| 0 <= i < rank.len() && (#[trigger] rank[i]) < explored() ==> rank[i] < current_rank
    &&& forall|i: int, j: int|
        0 <= i < j < rank.len() && (#[trigger] rank[i]) < explored() && (#[trigger] rank[j]) < explored()
            ==> rank[i] != rank[j]
}

/// The finished nodes and the nodes that were not reached are finitely many,
/// and each not more than there are places.
pub proof fn lemma_post_order_bounded(rank: Seq<usize>)
    ensures
        finished(rank).finite(),
        finished(rank).len() <= rank.len(),
        not_reached(rank).finite(),
        not_reached(rank).len() <= rank.len(),
{
    let all = vstd::set_lib::set_int_range(0, rank.len() as int);
    vstd::set_lib::lemma_int_range(0, rank.len() as int);
    assert(finished(rank).subset_of(all));
    vstd::set_lib::lemma_len_subset(finished(rank), all);
    assert(not_reached(rank).subset_of(all));
    vstd::set_lib::lemma_len_subset(not_reached(rank), all);
}

/// While a node is not finished, fewer nodes are finished than there are places.
pub proof fn lemma_room_for_rank(rank: Seq<usize>, node: int)
    requires
        0 <= node < rank.len(),
        rank[node] >= explored(),
    ensures
        finished(rank).len() < rank.len(),
{
    let all = vstd::set_lib::set_int_range(0, rank.len() as int);
    vstd::set_lib::lemma_int_range(0, rank.len() as int);
    assert(finished(rank).subset_of(all.remove(node)));
    vstd::set_lib::lemma_len_subset(finished(rank), all.remove(node));
}

/// The nodes of the neighbors of the list that were not reached, in the order
/// of the list.
pub open spec fn nodes_not_reached(list: Seq<Neighbor<usize, usize>>, rank: Seq<usize>) -> Seq<usize>
    decreases list.len(),
{
    if list.len() == 0 {
        Seq::empty()
    } else if rank[list.last().node_id as int] == no_rank() {
        nodes_not_reached(list.drop_last(), rank).push(list.last().node_id)
    } else {
        nodes_not_reached(list.drop_last(), rank)
    }
}

/// What a depth first postorder traversal in the given state returns next, and
/// the state after it.
///
/// The last node of the queue leaves the queue. If its neighbors are being
/// processed, it gets the next rank and is returned. If it was not reached, it
/// enters the queue again, followed by those of its neighbors that were not
/// reached, and its neighbors are being processed from then on. In this case,
/// and if the node has a rank, the traversal goes on with the queue as it then
/// is. With an empty queue nothing is returned.
pub open spec fn post_order_next<
    Graph: NavigableGraph,
    NeighborStrategy: TraversalNeighborStrategy<Graph>,
>(graph: &Graph, s: PostOrderState) -> (PostOrderState, Option<usize>)
    decreases not_reached(s.rank).len(), s.queue.len(),
    when s.queue.len() > 0 ==> s.queue.last() < s.rank.len()
    via post_order_next_decreases::<Graph, NeighborStrategy>
{
    if s.queue.len() == 0 {
        (s, None)
    } else {
        let first = s.queue.last();
        let rest = s.queue.drop_last();
        if s.rank[first as int] == explored() {
            (
                PostOrderState {
                    rank: s.rank.update(first as int, s.current_rank),
                    current_rank: (s.current_rank + 1) as usize,
                    queue: rest,
                },
                Some(first),
            )
        } else if s.rank[first as int] == no_rank() {
            let rank = s.rank.update(first as int, explored());
            post_order_next::<Graph, NeighborStrategy>(
                graph,
                PostOrderState {
                    rank,
                    current_rank: s.current_rank,
                    queue: rest.push(first) + nodes_not_reached(
                        NeighborStrategy::neighbor_list(graph, first),
                        rank,
                    ),
                },
            )
        } else {
            post_order_next::<Graph, NeighborStrategy>(graph, PostOrderState { queue: rest, ..s })
        }
    }
}

/// The traversal comes to an end: with each node that leaves the queue, the
/// nodes that were not reached become fewer, or the queue becomes shorter.
#[via_fn]
proof fn post_order_next_decreases<
    Graph: NavigableGraph,
    NeighborStrategy: TraversalNeighborStrategy<Graph>,
>(graph: &Graph, s: PostOrderState) {
    if s.queue.len() > 0 {
        let first = s.queue.last();
        lemma_post_order_bounded(s.rank);
        if s.rank[first as int] == no_rank() {
            let rank = s.rank.update(first as int, explored());
            lemma_post_order_bounded(rank);
            assert(not_reached(rank) =~= not_reached(s.rank).remove(first as int));
        }
    }
}

/// A vector of the given length in which no node is reached.
fn none_reached(len: usize) -> (r: Vec<usize>)
    ensures
        r@.len() == len,
        forall|i: int| 0 <= i < len ==> (#[trigger] r@[i]) == no_rank(),
        post_order_ranks_consistent(r@, 0),
{
    let mut r: Vec<usize> = Vec::new();
    let mut i: usize = 0;
    while i < len
        invariant
            i <= len,
            r@.len() == i,
            forall|j: int| 0 <= j < i ==> (#[trigger] r@[j]) == no_rank(),
        decreases len - i,
    {
        r.push(usize::MAX);
        i += 1;
    }
    proof {
        assert(finished(r@) =~= Set::<int>::empty());
    }
    r
}

/// A generic depth first postorder graph traversal.
///
/// The traversal is generic over the graph implementation,
/// as well as the direction of the search (`NeighborStrategy`).
///
/// Moreover, the traversal computes the postorder rank of each visited node.
/// This traversal operates with node-granularity, meaning that the `next` method returns nodes.
pub struct DfsPostOrderTraversal<Graph, NeighborStrategy> {
    queue: VecDeque<usize>,
    rank: Vec<usize>,
    current_rank: usize,
    graph: PhantomData<Graph>,
    neighbor_strategy: PhantomData<NeighborStrategy>,
}

impl<
    Graph: NavigableGraph,
    NeighborStrategy: TraversalNeighborStrategy<Graph>,
> DfsPostOrderTraversal<Graph, NeighborStrategy> {
    /// The state of the traversal.
    pub closed spec fn state(&self) -> PostOrderState {
        PostOrderState { rank: self.rank@, current_rank: self.current_rank, queue: self.queue@ }
    }

    /// The invariant of the traversal on the given graph: the graph is valid
    /// and closed under the neighbor strategy, each node of the graph has a
    /// place for its rank, the ranks are consistent, and the nodes in the queue
    /// are nodes of the graph.
    pub closed spec fn valid_for(&self, graph: &Graph) -> bool {
        &&& graph.valid()
        &&& neighbors_contained::<Graph, NeighborStrategy>(graph)
        &&& graph.node_bound() <= self.rank@.len()
        &&& self.rank@.len() < usize::MAX
        &&& post_order_ranks_consistent(self.rank@, self.current_rank)
        &&& forall|i: int| 0 <= i < self.queue@.len() ==> graph.node_ids().contains(#[trigger] self.queue@[i])
    }

    /// Creates a new traversal that operates on the given graph, starting from the given node.
    pub fn new(graph: &Graph, start: usize) -> (r: Self)
        requires
            graph.valid(),
            neighbors_contained::<Graph, NeighborStrategy>(graph),
            graph.node_bound() <= graph.node_ids().len(),
            graph.node_ids().len() < usize::MAX,
            graph.node_ids().contains(start),
        ensures
            r.valid_for(graph),
            r.state() == (PostOrderState {
                rank: Seq::new(graph.node_ids().len(), |i: int| no_rank()),
                current_rank: 0,
                queue: seq![start],
            }),
    {
        let mut queue: VecDeque<usize> = VecDeque::new();
        queue.push_back(start);
        let rank = none_reached(graph.node_count());
        proof {
            assert(rank@ =~= Seq::new(graph.node_ids().len(), |i: int| no_rank()));
            assert(queue@ =~= seq![start]);
        }
        Self { queue, rank, current_rank: 0, graph: PhantomData, neighbor_strategy: PhantomData }
    }

    /// Creates a new traversal that operates on the given graph.
    /// There is no starting node given, and to start the search, one of the `reset` methods needs to be used.
    pub fn new_without_start(graph: &Graph) -> (r: Self)
        requires
            graph.valid(),
            neighbors_contained::<Graph, NeighborStrategy>(graph),
            graph.node_bound() <= graph.node_ids().len(),
            graph.node_ids().len() < usize::MAX,
        ensures
            r.valid_for(graph),
            r.state() == (PostOrderState {
                rank: Seq::new(graph.node_ids().len(), |i: int| no_rank()),
                current_rank: 0,
                queue: Seq::<usize>::empty(),
            }),
    {
        let queue: VecDeque<usize> = VecDeque::new();
        let rank = none_reached(graph.node_count());
        proof {
            assert(rank@ =~= Seq::new(graph.node_ids().len(), |i: int| no_rank()));
            assert(queue@ =~= Seq::<usize>::empty());
        }
        Self { queue, rank, current_rank: 0, graph: PhantomData, neighbor_strategy: PhantomData }
    }

    /// Resets the traversal to start from the given node.
    pub fn reset(&mut self, start: usize)
        ensures
            final(self).state() == (PostOrderState {
                rank: Seq::new(old(self).state().rank.len(), |i: int| no_rank()),
                current_rank: 0,
                queue: seq![start],
            }),
            forall|graph: &Graph|
                old(self).valid_for(graph) && graph.node_ids().contains(start)
                    ==> #[trigger] final(self).valid_for(graph),
    {
        self.queue.clear();
        self.queue.push_back(start);
        let len = self.rank.len();
        let mut i: usize = 0;
        while i < len
            invariant
                i <= len,
                self.rank@.len() == len,
                self.queue@ == seq![start],
                forall|j: int| 0 <= j < i ==> (#[trigger] self.rank@[j]) == no_rank(),
            decreases len - i,
        {
            self.rank[i] = usize::MAX;
            i += 1;
        }
        self.current_rank = 0;
        proof {
            assert(self.rank@ =~= Seq::new(old(self).state().rank.len(), |i: int| no_rank()));
            assert(finished(self.rank@) =~= Set::<int>::empty());
        }
    }

    /// Resets the traversal to start from the given node without resetting the visited nodes.
    pub fn continue_traversal_from(&mut self, start: usize)
        requires
            old(self).state().queue.len() == 0,
        ensures
            final(self).state() == (PostOrderState { queue: seq![start], ..old(self).state() }),
            forall|graph: &Graph|
                old(self).valid_for(graph) && graph.node_ids().contains(start)
                    ==> #[trigger] final(self).valid_for(graph),
    {
        self.queue.push_back(start);
        proof {
            assert(self.queue@ =~= seq![start]);
        }
    }

    /// Computes and returns the next node in depth-first search postorder.
    ///
    /// The node that is returned gets the next rank. The ranks of the nodes
    /// that were processed completely stay, and no node that was reached
    /// becomes one that was not. Nothing is returned when the queue has
    /// become empty.
    pub fn next(&mut self, graph: &Graph) -> (r: Option<usize>)
        requires
            old(self).valid_for(graph),
        ensures
            final(self).valid_for(graph),
            (final(self).state(), r) == post_order_next::<Graph, NeighborStrategy>(
                graph,
                old(self).state(),
            ),
            final(self).state().rank.len() == old(self).state().rank.len(),
            forall|i: int|
                0 <= i < old(self).state().rank.len() && (#[trigger] old(self).state().rank[i]) < explored()
                    ==> final(self).state().rank[i] == old(self).state().rank[i],
            forall|i: int|
                0 <= i < old(self).state().rank.len() && (#[trigger] final(self).state().rank[i])
                    == no_rank() ==> old(self).state().rank[i] == no_rank(),
            r.is_none() ==> final(self).state().queue.len() == 0 && final(self).state().current_rank
                == old(self).state().current_rank,
            r.is_some() ==> {
                &&& graph.node_ids().contains(r.unwrap())
                &&& old(self).state().rank[r.unwrap() as int] >= explored()
                &&& final(self).state().rank[r.unwrap() as int] == old(self).state().current_rank
                &&& final(self).state().current_rank == old(self).state().current_rank + 1
            },
    {
        loop
            invariant
                self.valid_for(graph),
                post_order_next::<Graph, NeighborStrategy>(graph, self.state())
                    == post_order_next::<Graph, NeighborStrategy>(graph, old(self).state()),
                self.rank@.len() == old(self).rank@.len(),
                self.current_rank == old(self).current_rank,
                forall|i: int|
                    0 <= i < old(self).rank@.len() && (#[trigger] old(self).rank@[i]) < explored()
                        ==> self.rank@[i] == old(self).rank@[i],
                forall|i: int|
                    0 <= i < old(self).rank@.len() && (#[trigger] self.rank@[i]) == no_rank()
                        ==> old(self).rank@[i] == no_rank(),
            decreases not_reached(self.rank@).len(), self.queue@.len(),
        {
            let ghost rank_before = self.rank@;
            let ghost queue_before = self.queue@;
            let ghost before = self.state();
            proof {
                lemma_post_order_bounded(self.rank@);
                if queue_before.len() > 0 {
                    assert(graph.node_ids().contains(queue_before[queue_before.len() - 1]));
                    lemma_contained_below(graph, queue_before.last());
                }
            }
            match self.queue.pop_back() {
                None => {
                    return None;
                },
                Some(first) => {
                    proof {
                        assert(graph.node_ids().contains(queue_before[queue_before.len() - 1]));
                        lemma_contained_below(graph, first);
                    }
                    let rank_entry = self.rank[first];
                    if rank_entry == Self::explored_rank() {
                        proof {
                            let after = self.rank@.update(first as int, self.current_rank);
                            lemma_room_for_rank(self.rank@, first as int);
                            lemma_post_order_bounded(after);
                            assert(finished(after) =~= finished(self.rank@).insert(first as int));
                            assert(self.queue@ =~= queue_before.drop_last());
                        }
                        self.rank[first] = self.current_rank;
                        self.current_rank = self.current_rank + 1;
                        return Some(first);
                    } else if rank_entry == usize::MAX {
                        self.queue.push_back(first);
                        self.rank[first] = Self::explored_rank();
                        proof {
                            assert(finished(self.rank@) =~= finished(rank_before));
                            assert(not_reached(self.rank@) =~= not_reached(rank_before).remove(
                                first as int,
                            ));
                            NeighborStrategy::lemma_neighbors_bounded(graph, first);
                        }
                        let neighbors = NeighborStrategy::neighbor_iterator(graph, first);
                        let ghost rest = queue_before.drop_last();
                        let mut i: usize = 0;
                        proof {
                            assert(queue_before.subrange(0, queue_before.len() - 1) =~= rest);
                            assert(neighbors@.subrange(0, 0) =~= Seq::<Neighbor<usize, usize>>::empty());
                            assert(self.queue@ =~= rest.push(first) + nodes_not_reached(
                                neighbors@.subrange(0, 0),
                                self.rank@,
                            ));
                        }
                        while i < neighbors.len()
                            invariant
                                i <= neighbors@.len(),
                                neighbors@ == NeighborStrategy::neighbor_list(graph, first),
                                graph.node_ids().contains(first),
                                self.valid_for(graph),
                                first < rank_before.len(),
                                self.rank@ == rank_before.update(first as int, explored()),
                                self.current_rank == old(self).current_rank,
                                self.queue@ == rest.push(first) + nodes_not_reached(
                                    neighbors@.subrange(0, i as int),
                                    self.rank@,
                                ),
                            decreases neighbors@.len() - i,
                        {
                            let neighbor = neighbors[i];
                            proof {
                                assert(graph.node_ids().contains(
                                    NeighborStrategy::neighbor_list(graph, first)[i as int].node_id,
                                ));
                                lemma_contained_below(graph, neighbor.node_id);
                                let shorter = neighbors@.subrange(0, i as int);
                                let longer = neighbors@.subrange(0, i + 1);
                                assert(longer.drop_last() =~= shorter);
                                assert(longer.last() == neighbor);
                            }
                            if self.rank[neighbor.node_id] == usize::MAX {
                                self.queue.push_back(neighbor.node_id);
                                proof {
                                    assert(self.queue@ =~= rest.push(first) + nodes_not_reached(
                                        neighbors@.subrange(0, i + 1),
                                        self.rank@,
                                    ));
                                }
                            }
                            i += 1;
                        }
                        proof {
                            assert(neighbors@.subrange(0, neighbors@.len() as int) =~= neighbors@);
                            assert(self.state() == (PostOrderState {
                                rank: before.rank.update(first as int, explored()),
                                current_rank: before.current_rank,
                                queue: rest.push(first) + nodes_not_reached(
                                    NeighborStrategy::neighbor_list(graph, first),
                                    before.rank.update(first as int, explored()),
                                ),
                            }));
                            assert(before.queue.last() == first && before.rank[first as int] == no_rank());
                            if self.queue@.len() > 0 {
                                assert(graph.node_ids().contains(self.queue@[self.queue@.len() - 1]));
                                lemma_contained_below(graph, self.queue@.last());
                            }
                            assert(post_order_next::<Graph, NeighborStrategy>(graph, before)
                                == post_order_next::<Graph, NeighborStrategy>(graph, self.state()));
                        }
                    } else {
                        proof {
                            assert(self.queue@.len() == queue_before.len() - 1);
                            assert(self.queue@ =~= queue_before.drop_last());
                            assert(self.state() == (PostOrderState {
                                queue: before.queue.drop_last(),
                                ..before
                            }));
                            assert(before.queue.last() == first);
                            if self.queue@.len() > 0 {
                                assert(graph.node_ids().contains(self.queue@[self.queue@.len() - 1]));
                                lemma_contained_below(graph, self.queue@.last());
                            }
                            assert(post_order_next::<Graph, NeighborStrategy>(graph, before)
                                == post_order_next::<Graph, NeighborStrategy>(graph, self.state()));
                        }
                    }
                },
            }
        }
    }

    /// Returns the rank of a node in depth-first search postorder, or `None` if the node has not yet been processed completely.
    /// For a node whose neighbors are being processed, the number that stands
    /// for such a node is returned.
    pub fn rank_of(&self, node: usize) -> (r: Option<usize>)
        requires
            node < self.state().rank.len(),
        ensures
            r == (if self.state().rank[node as int] == no_rank() {
                None
            } else {
                Some(self.state().rank[node as int])
            }),
    {
        let rank = self.rank[node];
        if rank == usize::MAX {
            None
        } else {
            Some(rank)
        }
    }

    fn explored_rank() -> (r: usize)
        ensures
            r == explored(),
    {
        usize::MAX - 1
    }
}

} // verus!
