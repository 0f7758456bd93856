//! Traits and implementations of node- and edge-centric walks.
use crate::interface::{edges_to, ImmutableGraphContainer, NavigableGraph};
use crate::sequence::{occurs_at, Sequence};
use vstd::prelude::*;

verus! {

/// True if the graph has an edge from each node of the walk to the next.
pub open spec fn is_node_walk<Graph: NavigableGraph>(graph: &Graph, walk: Seq<usize>) -> bool {
    &&& forall|i: int| 0 <= i < walk.len() ==> graph.node_ids().contains(#[trigger] walk[i])
    &&& forall|i: int|
        0 <= i < walk.len() - 1 ==> (#[trigger] edges_to(graph.out_list(walk[i]), walk[i + 1])).len() > 0
}

/// True if the graph has exactly one edge from each node of the walk to the next.
pub open spec fn has_single_edges<Graph: NavigableGraph>(graph: &Graph, walk: Seq<usize>) -> bool {
    forall|i: int|
        0 <= i < walk.len() - 1 ==> (#[trigger] edges_to(graph.out_list(walk[i]), walk[i + 1])).len()
            == 1
}

/// True if each edge of the walk is an edge of the graph that starts at the
/// node at which the edge before it ends.
pub open spec fn is_edge_walk<Graph: ImmutableGraphContainer>(graph: &Graph, walk: Seq<usize>) -> bool {
    &&& forall|i: int| 0 <= i < walk.len() ==> graph.edge_ids().contains(#[trigger] walk[i])
    &&& forall|i: int|
        0 <= i < walk.len() - 1 ==> graph.endpoints(#[trigger] walk[i]).to_node == graph.endpoints(
            walk[i + 1],
        ).from_node
}

/// True if the edge at the place `i` of the walk starts at the node at which
/// the edge before it ends, where the last edge comes before the first.
pub open spec fn follows_previous<Graph: ImmutableGraphContainer>(
    graph: &Graph,
    walk: Seq<usize>,
    i: int,
) -> bool {
    graph.endpoints(walk[i]).from_node == graph.endpoints(
        walk[if i == 0 {
            walk.len() - 1
        } else {
            i - 1
        }],
    ).to_node
}

/// True if each edge of the walk starts at the node at which the edge before
/// it ends, where the last edge comes before the first.
pub open spec fn is_circular<Graph: ImmutableGraphContainer>(graph: &Graph, walk: Seq<usize>) -> bool {
    forall|i: int| 0 <= i < walk.len() ==> #[trigger] follows_previous(graph, walk, i)
}

/// A sequence of nodes in a graph, where each consecutive pair of nodes is connected by an edge.
pub trait NodeWalk<Graph: NavigableGraph, NodeSubwalk: ?Sized>: Sequence<usize, NodeSubwalk> {
    /// Returns the edge walk represented by this node walk.
    /// If there is a consecutive pair of nodes with a multiedge, then None is returned.
    /// If this walk contains less than two nodes, then None is returned.
    /// Each consecutive pair of nodes must be connected by an edge.
    fn clone_as_edge_walk(&self, graph: &Graph) -> (r: Option<Vec<usize>>)
        requires
            graph.valid(),
            is_node_walk(graph, self.items()),
        ensures
            r.is_some() <==> self.items().len() >= 2 && has_single_edges(graph, self.items()),
            r.is_some() ==> r.unwrap()@.len() == self.items().len() - 1 && forall|i: int|
                0 <= i < self.items().len() - 1 ==> #[trigger] r.unwrap()@[i] == edges_to(
                    graph.out_list(self.items()[i]),
                    self.items()[i + 1],
                )[0],
    {
        let len = self.len();
        if len < 2 {
            return None;
        }
        let mut walk: Vec<usize> = Vec::new();
        let mut i: usize = 0;
        while i < len - 1
            invariant
                i <= len - 1,
                len == self.items().len(),
                graph.valid(),
                is_node_walk(graph, self.items()),
                walk@.len() == i,
                forall|j: int|
                    0 <= j < i ==> (#[trigger] edges_to(
                        graph.out_list(self.items()[j]),
                        self.items()[j + 1],
                    )).len() == 1,
                forall|j: int|
                    0 <= j < i ==> #[trigger] walk@[j] == edges_to(
                        graph.out_list(self.items()[j]),
                        self.items()[j + 1],
                    )[0],
            decreases len - 1 - i,
        {
            let from = *self.item(i);
            let to = *self.item(i + 1);
            proof {
                assert(graph.node_ids().contains(self.items()[i as int]));
                assert(graph.node_ids().contains(self.items()[i + 1]));
                assert(edges_to(graph.out_list(self.items()[i as int]), self.items()[i + 1]).len() > 0);
            }
            let edges_between = graph.edges_between(from, to);
            if edges_between.len() > 1 {
                proof {
                    assert(edges_to(graph.out_list(self.items()[i as int]), self.items()[i + 1]).len()
                        != 1);
                }
                return None;
            }
            walk.push(edges_between[0]);
            i += 1;
        }
        Some(walk)
    }

    /// Returns true if this is a proper subwalk of the given walk.
    /// Proper means that the walks are not equal.
    fn is_proper_subwalk_of(&self, other: &Self) -> (r: bool)
        ensures
            r == (self.items().len() < other.items().len() && exists|start: int|
                occurs_at(self.items(), other.items(), start)),
    {
        self.is_proper_subsequence_of(other)
    }
}

/// A sequence of edges in a graph, where each consecutive pair of edges is connected by a node.
pub trait EdgeWalk<Graph: NavigableGraph, EdgeSubwalk: ?Sized>: Sequence<usize, EdgeSubwalk> {
    /// Returns the node walk represented by this edge walk.
    /// If this walk contains no edge, then None is returned.
    /// Each consecutive pair of edges must be connected by a node.
    fn clone_as_node_walk(&self, graph: &Graph) -> (r: Option<Vec<usize>>)
        requires
            graph.valid(),
            is_edge_walk(graph, self.items()),
        ensures
            r.is_some() <==> self.items().len() > 0,
            r.is_some() ==> {
                &&& r.unwrap()@.len() == self.items().len() + 1
                &&& r.unwrap()@[0] == graph.endpoints(self.items()[0]).from_node
                &&& forall|i: int|
                    0 <= i < self.items().len() ==> #[trigger] r.unwrap()@[i + 1] == graph.endpoints(
                        self.items()[i],
                    ).to_node
            },
    {
        let len = self.len();
        if len == 0 {
            return None;
        }
        let mut walk: Vec<usize> = Vec::new();
        proof {
            assert(graph.edge_ids().contains(self.items()[0]));
        }
        walk.push(graph.edge_endpoints(*self.item(0)).from_node);
        let mut i: usize = 0;
        while i < len
            invariant
                i <= len,
                len == self.items().len(),
                len > 0,
                graph.valid(),
                is_edge_walk(graph, self.items()),
                walk@.len() == i + 1,
                walk@[0] == graph.endpoints(self.items()[0]).from_node,
                forall|j: int|
                    0 <= j < i ==> #[trigger] walk@[j + 1] == graph.endpoints(self.items()[j]).to_node,
            decreases len - i,
        {
            proof {
                assert(graph.edge_ids().contains(self.items()[i as int]));
            }
            walk.push(graph.edge_endpoints(*self.item(i)).to_node);
            i += 1;
        }
        Some(walk)
    }

    /// Returns true if this is a proper subwalk of the given walk.
    /// Proper means that the walks are not equal.
    fn is_proper_subwalk_of(&self, other: &Self) -> (r: bool)
        ensures
            r == (self.items().len() < other.items().len() && exists|start: int|
                occurs_at(self.items(), other.items(), start)),
    {
        self.is_proper_subsequence_of(other)
    }

    /// Returns true if this is a valid circular walk in the given graph.
    fn is_circular_walk(&self, graph: &Graph) -> (r: bool)
        requires
            graph.valid(),
            forall|i: int| 0 <= i < self.items().len() ==> graph.edge_ids().contains(#[trigger] self.items()[i]),
        ensures
            r == is_circular(graph, self.items()),
    {
        let len = self.len();
        if len == 0 {
            return true;
        }
        proof {
            assert(graph.edge_ids().contains(self.items()[len - 1]));
        }
        let mut connecting_node = graph.edge_endpoints(*self.item(len - 1)).to_node;
        let mut i: usize = 0;
        while i < len
            invariant
                i <= len,
                len == self.items().len(),
                len > 0,
                graph.valid(),
                forall|k: int| 0 <= k < len ==> graph.edge_ids().contains(#[trigger] self.items()[k]),
                connecting_node == graph.endpoints(
                    self.items()[if i == 0 {
                        len - 1
                    } else {
                        i - 1
                    }],
                ).to_node,
                forall|j: int| 0 <= j < i ==> #[trigger] follows_previous(graph, self.items(), j),
            decreases len - i,
        {
            proof {
                assert(graph.edge_ids().contains(self.items()[i as int]));
            }
            let edge_endpoints = graph.edge_endpoints(*self.item(i));
            if edge_endpoints.from_node != connecting_node {
                proof {
                    assert(!follows_previous(graph, self.items(), i as int));
                }
                return false;
            } else {
                proof {
                    assert(follows_previous(graph, self.items(), i as int));
                }
                connecting_node = edge_endpoints.to_node;
            }
            i += 1;
        }
        true
    }
}

impl<Graph: NavigableGraph> NodeWalk<Graph, [usize]> for [usize] {

}

impl<Graph: NavigableGraph> EdgeWalk<Graph, [usize]> for [usize] {

}

/// A node walk that is represented as a vector of node indices.
pub type VecNodeWalk = Vec<usize>;

impl<Graph: NavigableGraph> NodeWalk<Graph, [usize]> for VecNodeWalk {

}

/// An edge walk that is represented as a vector of edge indices.
pub type VecEdgeWalk = Vec<usize>;

impl<Graph: NavigableGraph> EdgeWalk<Graph, [usize]> for VecEdgeWalk {

}

} // verus!
