//! The graph traits.
//!
//! The traits are roughly split up by different access types:
//!  - immutable reference (`ImmutableGraphContainer`)
//!  - mutable reference (`MutableGraphContainer`)
//!  - navigation from a node to its neighbors (`NavigableGraph`)
//!
//! Nodes and edges are named by indices of type `usize`. The model of a graph
//! is made of spec functions: the sequences of its node and edge indices, the
//! endpoints and the data of each, and for each node the lists of its outgoing
//! and incoming neighbors.
use vstd::prelude::*;

verus! {

/// An edge represented as a pair of node indices.
#[derive(Debug, Eq, PartialEq, Clone, Copy)]
pub struct Edge<NodeIndex> {
    /// The tail of this edge.
    pub from_node: NodeIndex,
    /// The head of this edge.
    pub to_node: NodeIndex,
}

/// The neighbor of a node, given as the edge used to reach the neighbor node as well as the neighbor node itself.
#[derive(Debug, Eq, PartialEq, Clone, Copy)]
pub struct Neighbor<NodeIndex, EdgeIndex> {
    /// The edge used to reach the neighboring node.
    pub edge_id: EdgeIndex,
    /// The neighboring node.
    pub node_id: NodeIndex,
}

/// An enum encoding an index that can either be a node index or an edge index.
#[derive(Debug, Eq, PartialEq, Clone, Copy)]
pub enum NodeOrEdge<NodeIndex, EdgeIndex> {
    /// A node index.
    Node(NodeIndex),
    /// An edge index.
    Edge(EdgeIndex),
}

/// True if each entry of the sequence is smaller than the next.
pub open spec fn increasing(ids: Seq<usize>) -> bool {
    forall|i: int, j: int| 0 <= i < j < ids.len() ==> ids[i] < ids[j]
}

/// True if the ids are sorted in ascending order, and each of them is one of
/// the ids that the graph has.
pub open spec fn all_contained(ids: Seq<usize>, of_graph: Seq<usize>) -> bool {
    &&& increasing(ids)
    &&& forall|i: int| 0 <= i < ids.len() ==> of_graph.contains(#[trigger] ids[i])
}

/// The predicate that holds of the neighbors that are the node `to`.
pub open spec fn leads_to(to: usize) -> spec_fn(Neighbor<usize, usize>) -> bool {
    |neighbor: Neighbor<usize, usize>| neighbor.node_id == to
}

/// The function that gives the edge of a neighbor.
pub open spec fn edge_of() -> spec_fn(Neighbor<usize, usize>) -> usize {
    |neighbor: Neighbor<usize, usize>| neighbor.edge_id
}

/// The edges of the neighbors that lead to the node `to`, in the order of the list.
pub open spec fn edges_to(list: Seq<Neighbor<usize, usize>>, to: usize) -> Seq<usize> {
    list.filter(leads_to(to)).map_values(edge_of())
}

/// The edges of the neighbors that lead to the node `to`, in the order of the list.
pub fn edges_leading_to(list: &Vec<Neighbor<usize, usize>>, to: usize) -> (r: Vec<usize>)
    ensures
        r@ == edges_to(list@, to),
{
    let mut r: Vec<usize> = Vec::new();
    let mut i: usize = 0;
    proof {
        reveal_with_fuel(Seq::filter, 1);
        assert(list@.subrange(0, 0) =~= Seq::<Neighbor<usize, usize>>::empty());
        assert(edges_to(list@.subrange(0, 0), to) =~= Seq::<usize>::empty());
    }
    while i < list.len()
        invariant
            i <= list@.len(),
            r@ == edges_to(list@.subrange(0, i as int), to),
        decreases list@.len() - i,
    {
        let neighbor = list[i];
        proof {
            reveal_with_fuel(Seq::filter, 1);
            let before = list@.subrange(0, i as int);
            let after = list@.subrange(0, i + 1);
            assert(after.drop_last() =~= before);
            assert(after.last() == neighbor);
            if leads_to(to)(neighbor) {
                assert(after.filter(leads_to(to)) == before.filter(leads_to(to)).push(neighbor));
                assert(edges_to(after, to) =~= edges_to(before, to).push(neighbor.edge_id));
            } else {
                assert(after.filter(leads_to(to)) == before.filter(leads_to(to)));
            }
        }
        if neighbor.node_id == to {
            r.push(neighbor.edge_id);
        }
        i += 1;
    }
    proof {
        assert(list@.subrange(0, list@.len() as int) =~= list@);
    }
    r
}

/// Contains the associated types of a graph.
pub trait GraphBase {
    /// The data type associated with each node.
    type NodeData;

    /// The data type associated with each edge.
    type EdgeData;

    /// Returns the none value of the optional node index type used by the trait.
    fn new_none_optional_node_index(&self) -> (r: Option<usize>)
        ensures
            r.is_none(),
    {
        None
    }

    /// Returns the none value of the optional edge index type used by the trait.
    fn new_none_optional_edge_index(&self) -> (r: Option<usize>)
        ensures
            r.is_none(),
    {
        None
    }
}

/// A container that contains a set of nodes and edges.
///
/// Graphs that implement this trait must have their nodes and edges indexed consecutively.
pub trait ImmutableGraphContainer: GraphBase {
    /// The invariant of the graph.
    spec fn valid(&self) -> bool;

    /// The indices of the nodes in this graph, in increasing order.
    spec fn node_ids(&self) -> Seq<usize>;

    /// The indices of the edges in this graph, in increasing order.
    spec fn edge_ids(&self) -> Seq<usize>;

    /// A bound above the index of every node that this graph or a graph that
    /// it is a part of has.
    spec fn node_bound(&self) -> nat;

    /// The endpoints of an edge.
    spec fn endpoints(&self, edge_id: usize) -> Edge<usize>;

    /// The data of a node.
    spec fn node_data_spec(&self, node_id: usize) -> Self::NodeData;

    /// The data of an edge.
    spec fn edge_data_spec(&self, edge_id: usize) -> Self::EdgeData;

    /// The indices come in increasing order, and those of the nodes are below the bound.
    proof fn lemma_ids(&self)
        requires
            self.valid(),
        ensures
            increasing(self.node_ids()),
            increasing(self.edge_ids()),
            forall|i: int| 0 <= i < self.node_ids().len() ==> #[trigger] self.node_ids()[i] < self.node_bound(),
    ;

    /// Returns the node indices in this graph.
    fn node_indices(&self) -> (r: Vec<usize>)
        requires
            self.valid(),
        ensures
            r@ == self.node_ids(),
    ;

    /// Returns the edge indices in this graph.
    fn edge_indices(&self) -> (r: Vec<usize>)
        requires
            self.valid(),
        ensures
            r@ == self.edge_ids(),
    ;

    /// Returns true if this graph contains the given node index.
    fn contains_node_index(&self, node_id: usize) -> (r: bool)
        requires
            self.valid(),
        ensures
            r == self.node_ids().contains(node_id),
    ;

    /// Returns true if this graph contains the given edge index.
    fn contains_edge_index(&self, edge_id: usize) -> (r: bool)
        requires
            self.valid(),
        ensures
            r == self.edge_ids().contains(edge_id),
    ;

    /// Returns the amount of nodes in this graph.
    fn node_count(&self) -> (r: usize)
        requires
            self.valid(),
        ensures
            r == self.node_ids().len(),
    ;

    /// Returns the amount of edges in this graph.
    fn edge_count(&self) -> (r: usize)
        requires
            self.valid(),
        ensures
            r == self.edge_ids().len(),
    ;

    /// Returns a reference to the node data associated with the given node id.
    fn node_data(&self, node_id: usize) -> (r: &Self::NodeData)
        requires
            self.valid(),
            self.node_ids().contains(node_id),
        ensures
            *r == self.node_data_spec(node_id),
    ;

    /// Returns a reference to the edge data associated with the given edge id.
    fn edge_data(&self, edge_id: usize) -> (r: &Self::EdgeData)
        requires
            self.valid(),
            self.edge_ids().contains(edge_id),
        ensures
            *r == self.edge_data_spec(edge_id),
    ;

    /// Returns the endpoints of an edge.
    fn edge_endpoints(&self, edge_id: usize) -> (r: Edge<usize>)
        requires
            self.valid(),
            self.edge_ids().contains(edge_id),
        ensures
            r == self.endpoints(edge_id),
    ;

    /// Returns true if the graph is empty, i.e. contains no nodes or edges.
    fn is_empty(&self) -> (r: bool)
        requires
            self.valid(),
        ensures
            r == (self.node_ids().len() == 0),
    {
        self.node_count() == 0
    }
}

/// Passes a mutable graph through another type.
/// Useful for accessing a graph mutably while iterating over its nodes or edges.
pub trait MutableGraphPassthrough<Graph> {
    /// Get a mutable reference to the graph.
    fn graph_mut(&mut self) -> &mut Graph;
}

/// A container that allows adding and removing nodes and edges.
pub trait MutableGraphContainer: ImmutableGraphContainer {
    /// Returns a mutable reference to the node data associated with the given node id.
    /// The node has the data that is left behind the reference; nothing else changes.
    fn node_data_mut(&mut self, node_id: usize) -> (r: &mut Self::NodeData)
        requires
            old(self).valid(),
            old(self).node_ids().contains(node_id),
        ensures
            *r == old(self).node_data_spec(node_id),
            final(self).valid(),
            final(self).node_ids() == old(self).node_ids(),
            final(self).edge_ids() == old(self).edge_ids(),
            final(self).node_data_spec(node_id) == *final(r),
            forall|n: usize|
                n != node_id && #[trigger] old(self).node_ids().contains(n) ==> final(self).node_data_spec(n)
                    == old(self).node_data_spec(n),
            forall|e: usize| #[trigger] old(self).edge_ids().contains(e)
                ==> final(self).endpoints(e) == old(self).endpoints(e)
                && final(self).edge_data_spec(e) == old(self).edge_data_spec(e),
    ;

    /// Returns a mutable reference to the edge data associated with the given edge id.
    /// The edge has the data that is left behind the reference; nothing else changes.
    fn edge_data_mut(&mut self, edge_id: usize) -> (r: &mut Self::EdgeData)
        requires
            old(self).valid(),
            old(self).edge_ids().contains(edge_id),
        ensures
            *r == old(self).edge_data_spec(edge_id),
            final(self).valid(),
            final(self).node_ids() == old(self).node_ids(),
            final(self).edge_ids() == old(self).edge_ids(),
            final(self).edge_data_spec(edge_id) == *final(r),
            forall|n: usize| #[trigger] old(self).node_ids().contains(n)
                ==> final(self).node_data_spec(n) == old(self).node_data_spec(n),
            forall|e: usize| #[trigger] old(self).edge_ids().contains(e)
                ==> final(self).endpoints(e) == old(self).endpoints(e),
            forall|e: usize|
                e != edge_id && #[trigger] old(self).edge_ids().contains(e) ==> final(self).edge_data_spec(e)
                    == old(self).edge_data_spec(e),
    ;

    /// Adds a new node with the given `NodeData` to the graph.
    fn add_node(&mut self, node_data: Self::NodeData) -> (r: usize)
        requires
            old(self).valid(),
        ensures
            final(self).valid(),
            final(self).node_ids() == old(self).node_ids().push(r),
            final(self).edge_ids() == old(self).edge_ids(),
            final(self).node_data_spec(r) == node_data,
            forall|n: usize| old(self).node_ids().contains(n)
                ==> final(self).node_data_spec(n) == old(self).node_data_spec(n),
            forall|e: usize| #[trigger] old(self).edge_ids().contains(e)
                ==> final(self).endpoints(e) == old(self).endpoints(e)
                && final(self).edge_data_spec(e) == old(self).edge_data_spec(e),
    ;

    /// Adds a new edge with the given `EdgeData` to the graph.
    fn add_edge(&mut self, from: usize, to: usize, edge_data: Self::EdgeData) -> (r: usize)
        requires
            old(self).valid(),
            old(self).node_ids().contains(from),
            old(self).node_ids().contains(to),
        ensures
            final(self).valid(),
            final(self).node_ids() == old(self).node_ids(),
            final(self).edge_ids() == old(self).edge_ids().push(r),
            final(self).endpoints(r) == (Edge { from_node: from, to_node: to }),
            final(self).edge_data_spec(r) == edge_data,
            forall|n: usize| old(self).node_ids().contains(n)
                ==> final(self).node_data_spec(n) == old(self).node_data_spec(n),
            forall|e: usize| #[trigger] old(self).edge_ids().contains(e)
                ==> final(self).endpoints(e) == old(self).endpoints(e)
                && final(self).edge_data_spec(e) == old(self).edge_data_spec(e),
    ;

    /// Removes the node with the given id from the graph, with the edges at it.
    /// Note that this may change the ids of existing nodes and edges.
    /// The nodes with a smaller id than the given one keep their ids and
    /// their data.
    fn remove_node(&mut self, node_id: usize) -> (r: Option<Self::NodeData>)
        requires
            old(self).valid(),
        ensures
            final(self).valid(),
            r.is_some() == old(self).node_ids().contains(node_id),
            r.is_some() ==> r.unwrap() == old(self).node_data_spec(node_id) && final(self).node_ids().len()
                == old(self).node_ids().len() - 1,
            r.is_none()
                ==> final(self).node_ids() == old(self).node_ids() && final(self).edge_ids() == old(self).edge_ids(),
            forall|n: usize|
                n < node_id ==> (#[trigger] final(self).node_ids().contains(n)) == old(self).node_ids().contains(n),
            forall|n: usize|
                n < node_id && #[trigger] old(self).node_ids().contains(n)
                    ==> final(self).node_data_spec(n) == old(self).node_data_spec(n),
    ;

    /// Removes all nodes with the given ids from the graph.
    /// The nodes must be passed as a slice and sorted in ascending order.
    /// Note that this may change the ids of existing nodes.
    ///
    /// The nodes are removed one after the other, from the last id to the
    /// first: at most one node for each id. Where the ids are sorted in
    /// ascending order and each is the id of a node, one node is removed for
    /// each id, and the nodes with a smaller id than the first keep their ids
    /// and their data.
    fn remove_nodes_sorted_slice(&mut self, node_ids: &[usize])
        requires
            old(self).valid(),
        ensures
            final(self).valid(),
            final(self).node_ids().len() <= old(self).node_ids().len(),
            final(self).node_ids().len() + node_ids@.len() >= old(self).node_ids().len(),
            node_ids@.len() == 0 ==> final(self).node_ids() == old(self).node_ids(),
            all_contained(node_ids@, old(self).node_ids()) ==> final(self).node_ids().len() == old(self).node_ids().len() - node_ids@.len(),
            all_contained(node_ids@, old(self).node_ids()) && node_ids@.len() > 0 ==> forall|n: usize|
                n < node_ids@[0] ==> (#[trigger] final(self).node_ids().contains(n)) == old(self).node_ids().contains(n),
            all_contained(node_ids@, old(self).node_ids()) && node_ids@.len() > 0 ==> forall|n: usize|
                n < node_ids@[0] && #[trigger] old(self).node_ids().contains(n) ==> final(self).node_data_spec(n) == old(self).node_data_spec(n),
    {
        let ghost sorted = all_contained(node_ids@, old(self).node_ids());
        let ghost mut limit: int = usize::MAX + 1;
        let mut i: usize = node_ids.len();
        while i > 0
            invariant
                i <= node_ids@.len(),
                self.valid(),
                sorted == all_contained(node_ids@, old(self).node_ids()),
                self.node_ids().len() <= old(self).node_ids().len(),
                self.node_ids().len() + (node_ids@.len() - i) >= old(self).node_ids().len(),
                i == node_ids@.len() ==> self.node_ids() == old(self).node_ids(),
                limit == (if i < node_ids@.len() {
                    node_ids@[i as int] as int
                } else {
                    usize::MAX + 1
                }),
                sorted ==> self.node_ids().len() == old(self).node_ids().len() - (node_ids@.len() - i),
                sorted ==> forall|j: int| 0 <= j < i ==> self.node_ids().contains(#[trigger] node_ids@[j]),
                sorted ==> forall|n: usize|
                    n < limit ==> (#[trigger] self.node_ids().contains(n)) == old(self).node_ids().contains(n),
                sorted ==> forall|n: usize|
                    n < limit && #[trigger] old(self).node_ids().contains(n) ==> self.node_data_spec(n)
                        == old(self).node_data_spec(n),
            decreases i,
        {
            i -= 1;
            let ghost before_ids = self.node_ids();
            let ghost before = |n: usize| self.node_data_spec(n);
            let node_id = node_ids[i];
            self.remove_node(node_id);
            proof {
                if sorted {
                    assert(before_ids.contains(node_ids@[i as int]));
                    assert forall|j: int| 0 <= j < i implies self.node_ids().contains(
                        #[trigger] node_ids@[j],
                    ) by {
                        assert(node_ids@[j] < node_ids@[i as int]);
                        assert(before_ids.contains(node_ids@[j]));
                    }
                    if i + 1 < node_ids@.len() {
                        assert(node_ids@[i as int] < node_ids@[i + 1]);
                    }
                    assert forall|n: usize| n < node_id implies (#[trigger] self.node_ids().contains(n))
                        == old(self).node_ids().contains(n) by {
                        assert(self.node_ids().contains(n) == before_ids.contains(n));
                    }
                    assert forall|n: usize|
                        n < node_id && #[trigger] old(self).node_ids().contains(n) implies self.node_data_spec(
                        n,
                    ) == old(self).node_data_spec(n) by {
                        assert(before_ids.contains(n));
                        assert(before(n) == old(self).node_data_spec(n));
                    }
                }
                limit = node_id as int;
            }
        }
    }

    /// Removes the edge with the given id from the graph.
    /// Note that this may change the ids of existing edges.
    ///
    /// The nodes keep their data, and the edges with a smaller id than the
    /// given one keep their ids, their endpoints and their data.
    fn remove_edge(&mut self, edge_id: usize) -> (r: Option<Self::EdgeData>)
        requires
            old(self).valid(),
        ensures
            final(self).valid(),
            final(self).node_ids() == old(self).node_ids(),
            r.is_some() == old(self).edge_ids().contains(edge_id),
            r.is_some() ==> r.unwrap() == old(self).edge_data_spec(edge_id) && final(self).edge_ids().len()
                == old(self).edge_ids().len() - 1,
            r.is_none() ==> final(self).edge_ids() == old(self).edge_ids(),
            forall|n: usize| #[trigger] old(self).node_ids().contains(n)
                ==> final(self).node_data_spec(n) == old(self).node_data_spec(n),
            forall|e: usize|
                e < edge_id ==> (#[trigger] final(self).edge_ids().contains(e)) == old(self).edge_ids().contains(e),
            forall|e: usize|
                e < edge_id && #[trigger] old(self).edge_ids().contains(e)
                    ==> final(self).endpoints(e) == old(self).endpoints(e) && final(self).edge_data_spec(e)
                    == old(self).edge_data_spec(e),
    ;

    /// Removes the edges with the given ids from the graph.
    /// The ids are expected to be given in sorted order.
    ///
    /// Note that this may change the ids of existing edges.
    ///
    /// The edges are removed one after the other, from the last id to the
    /// first: at most one edge for each id. Where the ids are sorted in
    /// ascending order and each is the id of an edge, one edge is removed for
    /// each id, and the edges with a smaller id than the first keep their ids,
    /// their endpoints and their data. The nodes keep their data.
    fn remove_edges_sorted(&mut self, edge_ids: &[usize])
        requires
            old(self).valid(),
        ensures
            final(self).valid(),
            final(self).node_ids() == old(self).node_ids(),
            final(self).edge_ids().len() <= old(self).edge_ids().len(),
            final(self).edge_ids().len() + edge_ids@.len() >= old(self).edge_ids().len(),
            edge_ids@.len() == 0 ==> final(self).edge_ids() == old(self).edge_ids(),
            forall|n: usize| #[trigger] old(self).node_ids().contains(n)
                ==> final(self).node_data_spec(n) == old(self).node_data_spec(n),
            all_contained(edge_ids@, old(self).edge_ids()) ==> final(self).edge_ids().len() == old(self).edge_ids().len() - edge_ids@.len(),
            all_contained(edge_ids@, old(self).edge_ids()) && edge_ids@.len() > 0 ==> forall|e: usize|
                e < edge_ids@[0] ==> (#[trigger] final(self).edge_ids().contains(e)) == old(self).edge_ids().contains(e),
            all_contained(edge_ids@, old(self).edge_ids()) && edge_ids@.len() > 0 ==> forall|e: usize|
                e < edge_ids@[0] && #[trigger] old(self).edge_ids().contains(e) ==> final(self).endpoints(e)
                    == old(self).endpoints(e) && final(self).edge_data_spec(e) == old(self).edge_data_spec(e),
    ;

    /// Removes all nodes and edges from the graph.
    fn clear(&mut self)
        requires
            old(self).valid(),
        ensures
            final(self).valid(),
            final(self).node_ids().len() == 0,
            final(self).edge_ids().len() == 0,
    ;
}

/// A type that represents a subgraph of another graph.
pub trait SubgraphBase: GraphBase {
    /// The root graph of this subgraph, which is either its parent or the root of a DAG of subgraphs.
    type RootGraph: GraphBase;

    /// The root graph of this subgraph.
    spec fn root_spec(&self) -> &Self::RootGraph;

    /// Returns a reference to the root graph of this subgraph.
    fn root(&self) -> (r: &Self::RootGraph)
        ensures
            r == self.root_spec(),
    ;
}

/// A type that represents a mutable subgraph, to which nodes and edges existing in the parent graph can be added,
/// and nodes and edges can be removed.
pub trait MutableSubgraph: SubgraphBase + ImmutableGraphContainer {
    /// True if the subgraph can be cleared and filled, and nodes and edges can
    /// be disabled.
    spec fn supports_removal(&self) -> bool;

    /// True if the given node index can be enabled or disabled in this subgraph.
    spec fn can_change_node(&self, node_index: usize) -> bool;

    /// True if the given edge index can be enabled or disabled in this subgraph.
    spec fn can_change_edge(&self, edge_index: usize) -> bool;

    /// Removes all nodes and edges from the subgraph.
    fn clear(&mut self)
        requires
            old(self).valid(),
            old(self).supports_removal(),
        ensures
            final(self).valid(),
            final(self).node_ids().len() == 0,
            final(self).edge_ids().len() == 0,
    ;

    /// Adds all nodes and edges from the parent graph to this subgraph.
    fn fill(&mut self)
        requires
            old(self).valid(),
            old(self).supports_removal(),
        ensures
            final(self).valid(),
            forall|node: usize| old(self).can_change_node(node) ==> final(self).node_ids().contains(node),
            forall|edge: usize| old(self).can_change_edge(edge) ==> final(self).edge_ids().contains(edge),
    ;

    /// Enables the given node index that exists in the root graph in this subgraph.
    /// This method should only be called for nodes that are enabled in the parent of this subgraph.
    fn enable_node(&mut self, node_index: usize)
        requires
            old(self).valid(),
            old(self).can_change_node(node_index),
        ensures
            final(self).valid(),
            forall|node: usize|
                final(self).node_ids().contains(node) <==> old(self).node_ids().contains(node) || node
                    == node_index,
    ;

    /// Enables the given edge index that exists in the root graph in this subgraph.
    /// This method should only be called for edges that are enabled in the parent of this subgraph.
    fn enable_edge(&mut self, edge_index: usize)
        requires
            old(self).valid(),
            old(self).can_change_edge(edge_index),
        ensures
            final(self).valid(),
            forall|edge: usize|
                final(self).edge_ids().contains(edge) <==> old(self).edge_ids().contains(edge) || edge
                    == edge_index,
            final(self).node_ids() == old(self).node_ids(),
    ;

    /// Disables the given node index that exists in the root graph in this subgraph.
    /// This method should only be called for nodes that are enabled in the parent of this subgraph.
    fn disable_node(&mut self, node_index: usize)
        requires
            old(self).valid(),
            old(self).supports_removal(),
            old(self).can_change_node(node_index),
        ensures
            final(self).valid(),
            forall|node: usize|
                final(self).node_ids().contains(node) <==> old(self).node_ids().contains(node) && node
                    != node_index,
    ;

    /// Disables the given edge index that exists in the root graph in this subgraph.
    /// This method should only be called for edges that are enabled in the parent of this subgraph.
    fn disable_edge(&mut self, edge_index: usize)
        requires
            old(self).valid(),
            old(self).supports_removal(),
            old(self).can_change_edge(edge_index),
        ensures
            final(self).valid(),
            forall|edge: usize|
                final(self).edge_ids().contains(edge) <==> old(self).edge_ids().contains(edge) && edge
                    != edge_index,
            final(self).node_ids() == old(self).node_ids(),
    ;
}

/// A graph that can be navigated, i.e. that can iterate the neighbors of its nodes.
pub trait NavigableGraph: ImmutableGraphContainer + Sized {
    /// The outgoing neighbors of the given node, in the order in which the graph gives them.
    spec fn out_list(&self, node_id: usize) -> Seq<Neighbor<usize, usize>>;

    /// The incoming neighbors of the given node, in the order in which the graph gives them.
    spec fn in_list(&self, node_id: usize) -> Seq<Neighbor<usize, usize>>;

    /// The neighbors of a node are reached by edges of the graph that have the
    /// node and the neighbor as their endpoints, and lie below the bound.
    proof fn lemma_neighbors(&self, node_id: usize)
        requires
            self.valid(),
            self.node_ids().contains(node_id),
        ensures
            forall|i: int|
                0 <= i < self.out_list(node_id).len() ==> {
                    let neighbor = #[trigger] self.out_list(node_id)[i];
                    &&& self.edge_ids().contains(neighbor.edge_id)
                    &&& self.endpoints(neighbor.edge_id) == (Edge {
                        from_node: node_id,
                        to_node: neighbor.node_id,
                    })
                    &&& neighbor.node_id < self.node_bound()
                },
            forall|i: int|
                0 <= i < self.in_list(node_id).len() ==> {
                    let neighbor = #[trigger] self.in_list(node_id)[i];
                    &&& self.edge_ids().contains(neighbor.edge_id)
                    &&& self.endpoints(neighbor.edge_id) == (Edge {
                        from_node: neighbor.node_id,
                        to_node: node_id,
                    })
                    &&& neighbor.node_id < self.node_bound()
                },
    ;

    /// Returns the outgoing neighbors of the given node.
    fn out_neighbors(&self, node_id: usize) -> (r: Vec<Neighbor<usize, usize>>)
        requires
            self.valid(),
            self.node_ids().contains(node_id),
        ensures
            r@ == self.out_list(node_id),
    ;

    /// Returns the incoming neighbors of the given node.
    fn in_neighbors(&self, node_id: usize) -> (r: Vec<Neighbor<usize, usize>>)
        requires
            self.valid(),
            self.node_ids().contains(node_id),
        ensures
            r@ == self.in_list(node_id),
    ;

    /// Returns the edges `(from_node_id, to_node_id)`.
    fn edges_between(&self, from_node_id: usize, to_node_id: usize) -> (r: Vec<usize>)
        requires
            self.valid(),
            self.node_ids().contains(from_node_id),
            self.node_ids().contains(to_node_id),
        ensures
            r@ == edges_to(self.out_list(from_node_id), to_node_id),
    ;

    /// Returns true if the graph contains an edge `(from, to)`.
    fn contains_edge_between(&self, from: usize, to: usize) -> (r: bool)
        requires
            self.valid(),
            self.node_ids().contains(from),
            self.node_ids().contains(to),
        ensures
            r == (edges_to(self.out_list(from), to).len() > 0),
    {
        self.edges_between(from, to).len() > 0
    }

    /// Returns the amount of edges `(from, to)`.
    fn edge_count_between(&self, from: usize, to: usize) -> (r: usize)
        requires
            self.valid(),
            self.node_ids().contains(from),
            self.node_ids().contains(to),
        ensures
            r == edges_to(self.out_list(from), to).len(),
    {
        self.edges_between(from, to).len()
    }

    /// Returns the amount of outgoing edges from a node.
    fn out_degree(&self, node_id: usize) -> (r: usize)
        requires
            self.valid(),
            self.node_ids().contains(node_id),
        ensures
            r == self.out_list(node_id).len(),
    {
        self.out_neighbors(node_id).len()
    }

    /// Returns the amount of incoming edges to a node.
    fn in_degree(&self, node_id: usize) -> (r: usize)
        requires
            self.valid(),
            self.node_ids().contains(node_id),
        ensures
            r == self.in_list(node_id).len(),
    {
        self.in_neighbors(node_id).len()
    }

    /// Returns true if the given node has indegree == 1 and outdegree == 1.
    fn is_biunivocal_node(&self, node_id: usize) -> (r: bool)
        requires
            self.valid(),
            self.node_ids().contains(node_id),
        ensures
            r == (self.in_list(node_id).len() == 1 && self.out_list(node_id).len() == 1),
    {
        self.in_degree(node_id) == 1 && self.out_degree(node_id) == 1
    }

    /// Returns true if the given node has indegree > 1 and outdegree > 1.
    fn is_bivalent_node(&self, node_id: usize) -> (r: bool)
        requires
            self.valid(),
            self.node_ids().contains(node_id),
        ensures
            r == (self.in_list(node_id).len() > 1 && self.out_list(node_id).len() > 1),
    {
        self.in_degree(node_id) > 1 && self.out_degree(node_id) > 1
    }

    /// Returns true if the given edge's tail has outdegree > 1.
    fn is_split_edge(&self, edge_id: usize) -> (r: bool)
        requires
            self.valid(),
            self.edge_ids().contains(edge_id),
            self.node_ids().contains(self.endpoints(edge_id).from_node),
        ensures
            r == (self.out_list(self.endpoints(edge_id).from_node).len() > 1),
    {
        self.out_degree(self.edge_endpoints(edge_id).from_node) > 1
    }

    /// Returns true if the given edge's head has indegree > 1.
    fn is_join_edge(&self, edge_id: usize) -> (r: bool)
        requires
            self.valid(),
            self.edge_ids().contains(edge_id),
            self.node_ids().contains(self.endpoints(edge_id).to_node),
        ensures
            r == (self.in_list(self.endpoints(edge_id).to_node).len() > 1),
    {
        self.in_degree(self.edge_endpoints(edge_id).to_node) > 1
    }

    /// Returns true if the given node has outdegree > 1.
    fn is_split_node(&self, node_id: usize) -> (r: bool)
        requires
            self.valid(),
            self.node_ids().contains(node_id),
        ensures
            r == (self.out_list(node_id).len() > 1),
    {
        self.out_degree(node_id) > 1
    }

    /// Returns true if the given node has indegree > 1.
    fn is_join_node(&self, node_id: usize) -> (r: bool)
        requires
            self.valid(),
            self.node_ids().contains(node_id),
        ensures
            r == (self.in_list(node_id).len() > 1),
    {
        self.in_degree(node_id) > 1
    }
}

/// A helper trait to get the correct walk type from a graph.
/// This is the factory pattern, where a graph is a factory for walks.
pub trait WalkableGraph: GraphBase + Sized {
    /// Create a node-centric walk over the given nodes in this graph.
    fn create_node_walk(&self, walk: &[usize]) -> (r: Vec<usize>)
        ensures
            r@ == walk@,
    {
        copy_of(walk)
    }

    /// Create an empty node-centric walk in this graph.
    fn create_empty_node_walk(&self) -> (r: Vec<usize>)
        ensures
            r@.len() == 0,
    {
        Vec::new()
    }

    /// Create an edge-centric walk over the given edges in this graph.
    fn create_edge_walk(&self, walk: &[usize]) -> (r: Vec<usize>)
        ensures
            r@ == walk@,
    {
        copy_of(walk)
    }

    /// Create an empty edge-centric walk in this graph.
    fn create_empty_edge_walk(&self) -> (r: Vec<usize>)
        ensures
            r@.len() == 0,
    {
        Vec::new()
    }
}

impl<Graph: GraphBase> WalkableGraph for Graph {

}

/// A vector with the entries of the given slice.
pub fn copy_of(indices: &[usize]) -> (r: Vec<usize>)
    ensures
        r@ == indices@,
{
    let mut r: Vec<usize> = Vec::new();
    let mut i: usize = 0;
    while i < indices.len()
        invariant
            i <= indices@.len(),
            r@ == indices@.subrange(0, i as int),
        decreases indices@.len() - i,
    {
        r.push(indices[i]);
        proof {
            assert(r@ =~= indices@.subrange(0, i + 1));
        }
        i += 1;
    }
    proof {
        assert(r@ =~= indices@);
    }
    r
}

/// A graph implementing all common graph traits that do not require mutable access.
/// This is a useful shortcut for generic type bounds when the graph should not be mutated.
pub trait StaticGraph: ImmutableGraphContainer + NavigableGraph + WalkableGraph {

}

impl<T: ImmutableGraphContainer + NavigableGraph + WalkableGraph> StaticGraph for T {

}

/// A graph implementing all common graph traits, including those requiring mutable access.
/// This is a useful shortcut for generic type bounds when the graph should be mutated.
pub trait DynamicGraph: StaticGraph + MutableGraphContainer {

}

impl<T: StaticGraph + MutableGraphContainer> DynamicGraph for T {

}

} // verus!
