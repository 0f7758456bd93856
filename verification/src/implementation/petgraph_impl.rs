//! A graph implementation based on the `petgraph` crate.
//!
//! The nodes and edges and the order of the neighbors of a node are kept by a
//! `petgraph` graph without data. The data of the nodes and edges stands in
//! vectors beside it.
use crate::interface::{
    all_contained, edges_to, increasing, Edge, GraphBase, ImmutableGraphContainer, MutableGraphContainer,
    NavigableGraph, Neighbor, SubgraphBase,
};
use vstd::prelude::*;
use vstd::std_specs::cmp::PartialEqSpec;

verus! {

/// The graph type `petgraph::graph::Graph`, of which nothing is known here but
/// what the functions below say of it.
#[verifier::external_type_specification]
#[verifier::external_body]
#[verifier::reject_recursive_types(N)]
#[verifier::reject_recursive_types(E)]
#[verifier::reject_recursive_types(Ty)]
#[verifier::reject_recursive_types(Ix)]
pub struct ExGraph<N, E, Ty, Ix>(petgraph::graph::Graph<N, E, Ty, Ix>);

/// The marker type `petgraph::Directed` of graphs with directed edges.
#[verifier::external_type_specification]
#[verifier::external_body]
pub struct ExDirected(petgraph::Directed);

/// The number of nodes of a `petgraph` graph.
pub uninterp spec fn topology_node_count(
    g: petgraph::graph::Graph<(), (), petgraph::Directed, usize>,
) -> nat;

/// The edges of a `petgraph` graph in the order of their indices, each as the
/// pair of its source and its target.
pub uninterp spec fn topology_endpoints(
    g: petgraph::graph::Graph<(), (), petgraph::Directed, usize>,
) -> Seq<(int, int)>;

/// The indices of the edges that a `petgraph` graph gives as the outgoing edges
/// of the node `a`, in the order in which it gives them.
pub uninterp spec fn topology_out(
    g: petgraph::graph::Graph<(), (), petgraph::Directed, usize>,
    a: int,
) -> Seq<int>;

/// The indices of the edges that a `petgraph` graph gives as the incoming edges
/// of the node `a`, in the order in which it gives them.
pub uninterp spec fn topology_in(
    g: petgraph::graph::Graph<(), (), petgraph::Directed, usize>,
    a: int,
) -> Seq<int>;

/// The neighbors that are reached by the given edges: by their targets where
/// `outgoing` is true, and by their sources otherwise.
pub open spec fn neighbors_by(edges: Seq<int>, endpoints: Seq<(int, int)>, outgoing: bool) -> Seq<
    Neighbor<usize, usize>,
> {
    edges.map_values(
        |e: int|
            Neighbor {
                edge_id: e as usize,
                node_id: if outgoing {
                    endpoints[e].1 as usize
                } else {
                    endpoints[e].0 as usize
                },
            },
    )
}

/// Calls `Graph::with_capacity` with no capacity, which gives a graph without
/// nodes and edges.
#[verifier::external_body]
fn topology_new() -> (g: petgraph::graph::Graph<(), (), petgraph::Directed, usize>)
    ensures
        topology_node_count(g) == 0,
        topology_endpoints(g).len() == 0,
        forall|a: int| (#[trigger] topology_out(g, a)).len() == 0,
        forall|a: int| (#[trigger] topology_in(g, a)).len() == 0,
{
    petgraph::graph::Graph::with_capacity(0, 0)
}

/// Calls `Graph::node_count`, which gives the number of nodes.
#[verifier::external_body]
fn topology_count_nodes(g: &petgraph::graph::Graph<(), (), petgraph::Directed, usize>) -> (r: usize)
    ensures
        r == topology_node_count(*g),
{
    g.node_count()
}

/// Calls `Graph::edge_count`, which gives the number of edges.
#[verifier::external_body]
fn topology_count_edges(g: &petgraph::graph::Graph<(), (), petgraph::Directed, usize>) -> (r: usize)
    ensures
        r == topology_endpoints(*g).len(),
{
    g.edge_count()
}

/// Calls `Graph::add_node`, which appends a node without edges and returns
/// its index. Nothing else changes.
#[verifier::external_body]
fn topology_add_node(g: &mut petgraph::graph::Graph<(), (), petgraph::Directed, usize>) -> (r: usize)
    ensures
        r == topology_node_count(*old(g)),
        topology_node_count(*final(g)) == topology_node_count(*old(g)) + 1,
        topology_endpoints(*final(g)) == topology_endpoints(*old(g)),
        forall|a: int| #[trigger] topology_out(*final(g), a) == topology_out(*old(g), a),
        forall|a: int| #[trigger] topology_in(*final(g), a) == topology_in(*old(g), a),
{
    g.add_node(()).index()
}

/// Calls `Graph::add_edge`, which appends an edge from `a` to `b` and returns
/// its index. The edge becomes the first outgoing edge of `a` and the first
/// incoming edge of `b`. It panics if one of the nodes does not exist, which
/// the precondition excludes.
#[verifier::external_body]
fn topology_add_edge(
    g: &mut petgraph::graph::Graph<(), (), petgraph::Directed, usize>,
    a: usize,
    b: usize,
) -> (r: usize)
    requires
        a < topology_node_count(*old(g)),
        b < topology_node_count(*old(g)),
    ensures
        r == topology_endpoints(*old(g)).len(),
        topology_node_count(*final(g)) == topology_node_count(*old(g)),
        topology_endpoints(*final(g)) == topology_endpoints(*old(g)).push((a as int, b as int)),
        topology_out(*final(g), a as int) == seq![r as int] + topology_out(*old(g), a as int),
        topology_in(*final(g), b as int) == seq![r as int] + topology_in(*old(g), b as int),
        forall|x: int| x != a ==> #[trigger] topology_out(*final(g), x) == topology_out(*old(g), x),
        forall|x: int| x != b ==> #[trigger] topology_in(*final(g), x) == topology_in(*old(g), x),
{
    g.add_edge(petgraph::graph::NodeIndex::new(a), petgraph::graph::NodeIndex::new(b), ()).index()
}

/// Calls `Graph::edge_endpoints`, which gives the source and the target of an
/// edge that exists, and nothing for another index.
#[verifier::external_body]
fn topology_edge_endpoints(
    g: &petgraph::graph::Graph<(), (), petgraph::Directed, usize>,
    e: usize,
) -> (r: Option<(usize, usize)>)
    ensures
        r.is_some() == (e < topology_endpoints(*g).len()),
        r.is_some() ==> (r.unwrap().0 as int, r.unwrap().1 as int) == topology_endpoints(*g)[e as int],
{
    g.edge_endpoints(petgraph::graph::EdgeIndex::new(e)).map(|(from, to)| (from.index(), to.index()))
}

/// Calls `Graph::edges_directed` for the outgoing edges of `a`, and gives each
/// of them as its index and its target.
#[verifier::external_body]
fn topology_out_neighbors(
    g: &petgraph::graph::Graph<(), (), petgraph::Directed, usize>,
    a: usize,
) -> (r: Vec<Neighbor<usize, usize>>)
    ensures
        r@ == neighbors_by(topology_out(*g, a as int), topology_endpoints(*g), true),
{
    g.edges_directed(petgraph::graph::NodeIndex::new(a), petgraph::Direction::Outgoing).map(
        |edge| Neighbor {
            edge_id: petgraph::visit::EdgeRef::id(&edge).index(),
            node_id: petgraph::visit::EdgeRef::target(&edge).index(),
        },
    ).collect()
}

/// Calls `Graph::edges_directed` for the incoming edges of `a`, and gives each
/// of them as its index and its source.
#[verifier::external_body]
fn topology_in_neighbors(
    g: &petgraph::graph::Graph<(), (), petgraph::Directed, usize>,
    a: usize,
) -> (r: Vec<Neighbor<usize, usize>>)
    ensures
        r@ == neighbors_by(topology_in(*g, a as int), topology_endpoints(*g), false),
{
    g.edges_directed(petgraph::graph::NodeIndex::new(a), petgraph::Direction::Incoming).map(
        |edge| Neighbor {
            edge_id: petgraph::visit::EdgeRef::id(&edge).index(),
            node_id: petgraph::visit::EdgeRef::source(&edge).index(),
        },
    ).collect()
}

/// Calls `Graph::edges_connecting`, which gives those of the outgoing edges of
/// `a` that have the target `b`, in the order of the outgoing edges.
#[verifier::external_body]
fn topology_edges_connecting(
    g: &petgraph::graph::Graph<(), (), petgraph::Directed, usize>,
    a: usize,
    b: usize,
) -> (r: Vec<usize>)
    ensures
        r@ == edges_to(
            neighbors_by(topology_out(*g, a as int), topology_endpoints(*g), true),
            b,
        ),
{
    g.edges_connecting(petgraph::graph::NodeIndex::new(a), petgraph::graph::NodeIndex::new(b)).map(
        |edge| petgraph::visit::EdgeRef::id(&edge).index(),
    ).collect()
}

/// Calls `Graph::clear`, which removes all nodes and edges.
#[verifier::external_body]
fn topology_clear(g: &mut petgraph::graph::Graph<(), (), petgraph::Directed, usize>)
    ensures
        topology_node_count(*final(g)) == 0,
        topology_endpoints(*final(g)).len() == 0,
        forall|a: int| (#[trigger] topology_out(*final(g), a)).len() == 0,
        forall|a: int| (#[trigger] topology_in(*final(g), a)).len() == 0,
{
    g.clear()
}

/// Calls `Graph::remove_edge`, which removes the edge `e` if it exists and
/// says whether it did. The last edge then takes the index `e`. The lists of
/// the nodes keep fitting the edges.
#[verifier::external_body]
fn topology_remove_edge(
    g: &mut petgraph::graph::Graph<(), (), petgraph::Directed, usize>,
    e: usize,
) -> (r: bool)
    ensures
        r == (e < topology_endpoints(*old(g)).len()),
        topology_node_count(*final(g)) == topology_node_count(*old(g)),
        r ==> topology_endpoints(*final(g)) == topology_endpoints(*old(g)).update(
            e as int,
            topology_endpoints(*old(g)).last(),
        ).drop_last(),
        !r ==> topology_endpoints(*final(g)) == topology_endpoints(*old(g)),
        topology_sound(*old(g)) ==> topology_sound(*final(g)),
{
    g.remove_edge(petgraph::graph::EdgeIndex::new(e)).is_some()
}

/// Calls `Graph::remove_node` for a node without edges, which removes the
/// node `a` if it exists and says whether it did. The last node then takes the
/// index `a`, in the endpoints of the edges too. The lists of the nodes keep
/// fitting the edges.
#[verifier::external_body]
fn topology_remove_node(
    g: &mut petgraph::graph::Graph<(), (), petgraph::Directed, usize>,
    a: usize,
) -> (r: bool)
    requires
        topology_out(*old(g), a as int).len() == 0,
        topology_in(*old(g), a as int).len() == 0,
    ensures
        r == (a < topology_node_count(*old(g))),
        r ==> topology_node_count(*final(g)) == topology_node_count(*old(g)) - 1,
        !r ==> topology_node_count(*final(g)) == topology_node_count(*old(g)),
        topology_endpoints(*final(g)).len() == topology_endpoints(*old(g)).len(),
        topology_sound(*old(g)) ==> topology_sound(*final(g)),
{
    g.remove_node(petgraph::graph::NodeIndex::new(a)).is_some()
}

/// True if the `i`-th outgoing edge of `a` is an edge of the graph that starts at `a`.
pub open spec fn sound_out(
    g: petgraph::graph::Graph<(), (), petgraph::Directed, usize>,
    a: int,
    i: int,
) -> bool {
    let e = topology_out(g, a)[i];
    0 <= e < topology_endpoints(g).len() && topology_endpoints(g)[e].0 == a
}

/// True if the `i`-th incoming edge of `a` is an edge of the graph that ends at `a`.
pub open spec fn sound_in(
    g: petgraph::graph::Graph<(), (), petgraph::Directed, usize>,
    a: int,
    i: int,
) -> bool {
    let e = topology_in(g, a)[i];
    0 <= e < topology_endpoints(g).len() && topology_endpoints(g)[e].1 == a
}

/// True if the edges join nodes of the graph, the lists of the outgoing and
/// incoming edges of each node hold edges that start and end there, and a
/// node that does not exist has no such edges.
pub open spec fn topology_sound(g: petgraph::graph::Graph<(), (), petgraph::Directed, usize>) -> bool {
    &&& forall|e: int|
        0 <= e < topology_endpoints(g).len() ==> 0 <= (#[trigger] topology_endpoints(g)[e]).0
            < topology_node_count(g) && 0 <= topology_endpoints(g)[e].1 < topology_node_count(g)
    &&& forall|a: int, i: int|
        0 <= a < topology_node_count(g) && 0 <= i < topology_out(g, a).len() ==> #[trigger] sound_out(
            g,
            a,
            i,
        )
    &&& forall|a: int, i: int|
        0 <= a < topology_node_count(g) && 0 <= i < topology_in(g, a).len() ==> #[trigger] sound_in(
            g,
            a,
            i,
        )
    &&& forall|a: int|
        !(0 <= a < topology_node_count(g)) ==> (#[trigger] topology_out(g, a)).len() == 0
    &&& forall|a: int|
        !(0 <= a < topology_node_count(g)) ==> (#[trigger] topology_in(g, a)).len() == 0
}

/// The sequence after the entry at the place `i` was removed and the last
/// entry has taken its place. A place that the sequence does not have leaves
/// the sequence as it is.
pub open spec fn swap_removed<A>(s: Seq<A>, i: int) -> Seq<A> {
    if 0 <= i < s.len() {
        s.update(i, s.last()).drop_last()
    } else {
        s
    }
}

/// The sequence after the entries at the given places were removed one after
/// the other, from the last place of the list to the first, where each time
/// the last entry has taken the place of the entry that was removed.
pub open spec fn removed_from_last<A>(s: Seq<A>, places: Seq<usize>) -> Seq<A>
    decreases places.len(),
{
    if places.len() == 0 {
        s
    } else {
        removed_from_last(swap_removed(s, places.last() as int), places.drop_last())
    }
}

/// Where the places are sorted in ascending order and the sequence has each of
/// them, the removal takes one entry for each place, and leaves the entries
/// before the first place where they are.
pub proof fn lemma_removed_from_last<A>(s: Seq<A>, places: Seq<usize>)
    requires
        increasing(places),
        forall|i: int| 0 <= i < places.len() ==> (#[trigger] places[i]) < s.len(),
    ensures
        removed_from_last(s, places).len() == s.len() - places.len(),
        places.len() > 0 ==> forall|k: int|
            0 <= k < places[0] ==> #[trigger] removed_from_last(s, places)[k] == s[k],
    decreases places.len(),
{
    if places.len() > 0 {
        let rest = places.drop_last();
        let shorter = swap_removed(s, places.last() as int);
        assert(increasing(rest));
        assert forall|i: int| 0 <= i < rest.len() implies (#[trigger] rest[i]) < shorter.len() by {
            assert(places[i] < places[places.len() - 1]);
        }
        lemma_removed_from_last(shorter, rest);
        if rest.len() > 0 {
            assert(rest[0] == places[0]);
            assert(places[0] < places[places.len() - 1]);
            assert forall|k: int| 0 <= k < places[0] implies #[trigger] removed_from_last(s, places)[k]
                == s[k] by {
                assert(removed_from_last(shorter, rest)[k] == shorter[k]);
            }
        }
    }
}

/// The indices from zero up to, and without, `count`.
pub open spec fn indices_below(count: nat) -> Seq<usize> {
    Seq::new(count, |i: int| i as usize)
}

/// The indices below a count that fits in `usize` are those that are smaller
/// than the count, in increasing order.
pub proof fn lemma_indices_below(count: nat)
    requires
        count <= usize::MAX,
    ensures
        increasing(indices_below(count)),
        forall|x: usize| indices_below(count).contains(x) <==> x < count,
{
    assert forall|x: usize| indices_below(count).contains(x) <==> x < count by {
        if x < count {
            assert(indices_below(count)[x as int] == x);
        }
    }
}

/// A wrapper around the [petgraph::graph::Graph] type replacing its methods with implementations of our traits.
#[derive(Debug)]
pub struct PetGraph<NodeData, EdgeData> {
    topology: petgraph::graph::Graph<(), (), petgraph::Directed, usize>,
    node_data: Vec<NodeData>,
    edge_data: Vec<EdgeData>,
}

impl<NodeData, EdgeData> PetGraph<NodeData, EdgeData> {
    /// The invariant: one entry of data for each node and each edge, and the
    /// lists of neighbors fit the edges.
    pub closed spec fn well_formed(&self) -> bool {
        &&& self.node_data@.len() == topology_node_count(self.topology)
        &&& self.edge_data@.len() == topology_endpoints(self.topology).len()
        &&& self.node_data@.len() <= usize::MAX
        &&& self.edge_data@.len() <= usize::MAX
        &&& topology_sound(self.topology)
    }

    /// The number of nodes.
    pub open spec fn spec_node_count(&self) -> nat {
        self.spec_node_data().len()
    }

    /// The number of edges.
    pub open spec fn spec_edge_count(&self) -> nat {
        self.spec_edge_data().len()
    }

    /// A graph has a pair of endpoints for each edge.
    pub proof fn lemma_endpoint_pairs(&self)
        requires
            self.well_formed(),
        ensures
            self.spec_endpoint_pairs().len() == self.spec_edge_count(),
    {
    }

    /// The source and the target of an edge.
    pub closed spec fn spec_endpoints(&self, edge_id: usize) -> Edge<usize> {
        Edge {
            from_node: topology_endpoints(self.topology)[edge_id as int].0 as usize,
            to_node: topology_endpoints(self.topology)[edge_id as int].1 as usize,
        }
    }

    /// The edges in the order of their indices, each as the pair of its source
    /// and its target.
    pub closed spec fn spec_endpoint_pairs(&self) -> Seq<(int, int)> {
        topology_endpoints(self.topology)
    }

    /// The data of the nodes, in the order of their indices.
    pub closed spec fn spec_node_data(&self) -> Seq<NodeData> {
        self.node_data@
    }

    /// The data of the edges, in the order of their indices.
    pub closed spec fn spec_edge_data(&self) -> Seq<EdgeData> {
        self.edge_data@
    }

    /// The outgoing neighbors of a node, the one of the latest edge first.
    pub closed spec fn spec_out_list(&self, node_id: usize) -> Seq<Neighbor<usize, usize>> {
        neighbors_by(
            topology_out(self.topology, node_id as int),
            topology_endpoints(self.topology),
            true,
        )
    }

    /// The incoming neighbors of a node, the one of the latest edge first.
    pub closed spec fn spec_in_list(&self, node_id: usize) -> Seq<Neighbor<usize, usize>> {
        neighbors_by(
            topology_in(self.topology, node_id as int),
            topology_endpoints(self.topology),
            false,
        )
    }

    /// Create a new graph implemented using the `petgraph::graph::Graph` type.
    pub fn new() -> (r: PetGraph<NodeData, EdgeData>)
        ensures
            r.well_formed(),
            r.spec_node_count() == 0,
            r.spec_edge_count() == 0,
    {
        PetGraph { topology: topology_new(), node_data: Vec::new(), edge_data: Vec::new() }
    }
}

impl<NodeData, EdgeData> GraphBase for PetGraph<NodeData, EdgeData> {
    type NodeData = NodeData;

    type EdgeData = EdgeData;
}

impl<NodeData, EdgeData> SubgraphBase for PetGraph<NodeData, EdgeData> {
    type RootGraph = Self;

    open spec fn root_spec(&self) -> &Self {
        self
    }

    fn root(&self) -> (r: &Self) {
        self
    }
}

impl<NodeData, EdgeData> ImmutableGraphContainer for PetGraph<NodeData, EdgeData> {
    open spec fn valid(&self) -> bool {
        self.well_formed()
    }

    open spec fn node_ids(&self) -> Seq<usize> {
        indices_below(self.spec_node_count())
    }

    open spec fn edge_ids(&self) -> Seq<usize> {
        indices_below(self.spec_edge_count())
    }

    open spec fn node_bound(&self) -> nat {
        self.spec_node_count()
    }

    open spec fn endpoints(&self, edge_id: usize) -> Edge<usize> {
        self.spec_endpoints(edge_id)
    }

    open spec fn node_data_spec(&self, node_id: usize) -> NodeData {
        self.spec_node_data()[node_id as int]
    }

    open spec fn edge_data_spec(&self, edge_id: usize) -> EdgeData {
        self.spec_edge_data()[edge_id as int]
    }

    proof fn lemma_ids(&self) {
        lemma_indices_below(self.spec_node_count());
        lemma_indices_below(self.spec_edge_count());
    }

    fn node_indices(&self) -> (r: Vec<usize>) {
        indices_up_to(self.node_count())
    }

    fn edge_indices(&self) -> (r: Vec<usize>) {
        indices_up_to(self.edge_count())
    }

    fn contains_node_index(&self, node_id: usize) -> (r: bool) {
        proof {
            lemma_indices_below(self.spec_node_count());
        }
        node_id < topology_count_nodes(&self.topology)
    }

    fn contains_edge_index(&self, edge_id: usize) -> (r: bool) {
        proof {
            lemma_indices_below(self.spec_edge_count());
        }
        topology_edge_endpoints(&self.topology, edge_id).is_some()
    }

    fn node_count(&self) -> (r: usize) {
        topology_count_nodes(&self.topology)
    }

    fn edge_count(&self) -> (r: usize) {
        topology_count_edges(&self.topology)
    }

    fn node_data(&self, node_id: usize) -> (r: &NodeData) {
        proof {
            lemma_indices_below(self.spec_node_count());
        }
        &self.node_data[node_id]
    }

    fn edge_data(&self, edge_id: usize) -> (r: &EdgeData) {
        proof {
            lemma_indices_below(self.spec_edge_count());
        }
        &self.edge_data[edge_id]
    }

    fn edge_endpoints(&self, edge_id: usize) -> (r: Edge<usize>) {
        proof {
            lemma_indices_below(self.spec_edge_count());
        }
        let endpoints = topology_edge_endpoints(&self.topology, edge_id).unwrap();
        Edge { from_node: endpoints.0, to_node: endpoints.1 }
    }
}

/// The indices from zero up to, and without, `count`.
pub fn indices_up_to(count: usize) -> (r: Vec<usize>)
    ensures
        r@ == indices_below(count as nat),
{
    let mut r: Vec<usize> = Vec::new();
    let mut i: usize = 0;
    while i < count
        invariant
            i <= count,
            r@ == indices_below(i as nat),
        decreases count - i,
    {
        r.push(i);
        proof {
            assert(r@ =~= indices_below((i + 1) as nat));
        }
        i += 1;
    }
    r
}

impl<NodeData, EdgeData> NavigableGraph for PetGraph<NodeData, EdgeData> {
    open spec fn out_list(&self, node_id: usize) -> Seq<Neighbor<usize, usize>> {
        self.spec_out_list(node_id)
    }

    open spec fn in_list(&self, node_id: usize) -> Seq<Neighbor<usize, usize>> {
        self.spec_in_list(node_id)
    }

    proof fn lemma_neighbors(&self, node_id: usize) {
        lemma_indices_below(self.spec_node_count());
        lemma_indices_below(self.spec_edge_count());
        let g = self.topology;
        assert forall|i: int| 0 <= i < self.out_list(node_id).len() implies {
            let neighbor = #[trigger] self.out_list(node_id)[i];
            &&& self.edge_ids().contains(neighbor.edge_id)
            &&& self.endpoints(neighbor.edge_id) == (Edge {
                from_node: node_id,
                to_node: neighbor.node_id,
            })
            &&& neighbor.node_id < self.node_bound()
        } by {
            assert(sound_out(g, node_id as int, i));
        }
        assert forall|i: int| 0 <= i < self.in_list(node_id).len() implies {
            let neighbor = #[trigger] self.in_list(node_id)[i];
            &&& self.edge_ids().contains(neighbor.edge_id)
            &&& self.endpoints(neighbor.edge_id) == (Edge {
                from_node: neighbor.node_id,
                to_node: node_id,
            })
            &&& neighbor.node_id < self.node_bound()
        } by {
            assert(sound_in(g, node_id as int, i));
        }
    }

    fn out_neighbors(&self, node_id: usize) -> (r: Vec<Neighbor<usize, usize>>) {
        topology_out_neighbors(&self.topology, node_id)
    }

    fn in_neighbors(&self, node_id: usize) -> (r: Vec<Neighbor<usize, usize>>) {
        topology_in_neighbors(&self.topology, node_id)
    }

    fn edges_between(&self, from_node_id: usize, to_node_id: usize) -> (r: Vec<usize>) {
        topology_edges_connecting(&self.topology, from_node_id, to_node_id)
    }
}

impl<NodeData, EdgeData> PetGraph<NodeData, EdgeData> {
    /// The neighbors of the nodes are nodes of the graph.
    pub proof fn lemma_neighbors_contained(&self, node_id: usize)
        requires
            self.valid(),
            self.node_ids().contains(node_id),
        ensures
            forall|i: int|
                0 <= i < self.out_list(node_id).len() ==> self.node_ids().contains(
                    (#[trigger] self.out_list(node_id)[i]).node_id,
                ),
            forall|i: int|
                0 <= i < self.in_list(node_id).len() ==> self.node_ids().contains(
                    (#[trigger] self.in_list(node_id)[i]).node_id,
                ),
    {
        lemma_indices_below(self.spec_node_count());
        self.lemma_neighbors(node_id);
    }

    /// Removes the edges that start or end at the node, one after the other.
    fn remove_edges_at(&mut self, node_id: usize)
        requires
            old(self).valid(),
            old(self).node_ids().contains(node_id),
        ensures
            final(self).valid(),
            final(self).node_ids() == old(self).node_ids(),
            final(self).spec_node_data() == old(self).spec_node_data(),
            final(self).spec_edge_data().len() <= old(self).spec_edge_data().len(),
            final(self).out_list(node_id).len() == 0,
            final(self).in_list(node_id).len() == 0,
    {
        let mut more: bool = true;
        while more
            invariant
                self.valid(),
                self.node_ids() == old(self).node_ids(),
                self.node_ids().contains(node_id),
                self.spec_node_data() == old(self).spec_node_data(),
                self.spec_edge_data().len() <= old(self).spec_edge_data().len(),
                !more ==> self.out_list(node_id).len() == 0 && self.in_list(node_id).len() == 0,
            decreases
                    (if more {
                        1int
                    } else {
                        0int
                    }),
                    self.spec_edge_count(),
        {
            proof {
                self.lemma_neighbors(node_id);
                lemma_indices_below(self.spec_edge_count());
            }
            let outgoing = self.out_neighbors(node_id);
            if outgoing.len() > 0 {
                self.remove_edge(outgoing[0].edge_id);
            } else {
                let incoming = self.in_neighbors(node_id);
                if incoming.len() > 0 {
                    self.remove_edge(incoming[0].edge_id);
                } else {
                    more = false;
                }
            }
        }
    }
}

impl<NodeData, EdgeData> MutableGraphContainer for PetGraph<NodeData, EdgeData> {
    fn node_data_mut(&mut self, node_id: usize) -> (r: &mut NodeData)
        ensures
            forall|n: usize| #[trigger] final(self).out_list(n) == old(self).out_list(n),
            forall|n: usize| #[trigger] final(self).in_list(n) == old(self).in_list(n),
    {
        proof {
            lemma_indices_below(self.spec_node_count());
        }
        &mut self.node_data[node_id]
    }

    fn edge_data_mut(&mut self, edge_id: usize) -> (r: &mut EdgeData)
        ensures
            forall|n: usize| #[trigger] final(self).out_list(n) == old(self).out_list(n),
            forall|n: usize| #[trigger] final(self).in_list(n) == old(self).in_list(n),
    {
        proof {
            lemma_indices_below(self.spec_edge_count());
        }
        &mut self.edge_data[edge_id]
    }

    fn add_node(&mut self, node_data: NodeData) -> (r: usize)
        ensures
            r == old(self).node_ids().len(),
            forall|n: usize| #[trigger] final(self).out_list(n) == old(self).out_list(n),
            forall|n: usize| #[trigger] final(self).in_list(n) == old(self).in_list(n),
    {
        let ghost before = self.topology;
        let r = topology_add_node(&mut self.topology);
        self.node_data.push(node_data);
        // The number of the nodes fits in `usize`.
        let _nodes: usize = self.node_data.len();
        proof {
            let g = self.topology;
            assert forall|a: int, i: int|
                0 <= a < topology_node_count(g) && 0 <= i < topology_out(g, a).len() implies #[trigger] sound_out(
                g,
                a,
                i,
            ) by {
                assert(sound_out(before, a, i));
            }
            assert forall|a: int, i: int|
                0 <= a < topology_node_count(g) && 0 <= i < topology_in(g, a).len() implies #[trigger] sound_in(
                g,
                a,
                i,
            ) by {
                assert(sound_in(before, a, i));
            }
            assert(self.node_ids() =~= old(self).node_ids().push(r));
            lemma_indices_below(old(self).spec_node_count());
            lemma_indices_below(old(self).spec_edge_count());
        }
        r
    }

    fn add_edge(&mut self, from: usize, to: usize, edge_data: EdgeData) -> (r: usize)
        ensures
            r == old(self).edge_ids().len(),
            final(self).out_list(from) == seq![Neighbor { edge_id: r, node_id: to }] + old(self).out_list(
                from,
            ),
            final(self).in_list(to) == seq![Neighbor { edge_id: r, node_id: from }] + old(self).in_list(to),
            forall|n: usize| n != from ==> #[trigger] final(self).out_list(n) == old(self).out_list(n),
            forall|n: usize| n != to ==> #[trigger] final(self).in_list(n) == old(self).in_list(n),
    {
        let ghost before = self.topology;
        proof {
            lemma_indices_below(self.spec_node_count());
            lemma_indices_below(self.spec_edge_count());
        }
        let r = topology_add_edge(&mut self.topology, from, to);
        self.edge_data.push(edge_data);
        // The number of the edges fits in `usize`.
        let _edges: usize = self.edge_data.len();
        proof {
            let g = self.topology;
            assert forall|a: int, i: int|
                0 <= a < topology_node_count(g) && 0 <= i < topology_out(g, a).len() implies #[trigger] sound_out(
                g,
                a,
                i,
            ) by {
                if a == from {
                    if i > 0 {
                        assert(sound_out(before, a, i - 1));
                    }
                } else {
                    assert(sound_out(before, a, i));
                }
            }
            assert forall|a: int, i: int|
                0 <= a < topology_node_count(g) && 0 <= i < topology_in(g, a).len() implies #[trigger] sound_in(
                g,
                a,
                i,
            ) by {
                if a == to {
                    if i > 0 {
                        assert(sound_in(before, a, i - 1));
                    }
                } else {
                    assert(sound_in(before, a, i));
                }
            }
            assert(self.edge_ids() =~= old(self).edge_ids().push(r));
            assert forall|n: usize| n != from implies #[trigger] self.out_list(n) =~= old(self).out_list(
                n,
            ) by {
                assert forall|i: int| 0 <= i < topology_out(before, n as int).len() implies 0
                    <= #[trigger] topology_out(before, n as int)[i] < topology_endpoints(before).len() by {
                    if 0 <= n < topology_node_count(before) {
                        assert(sound_out(before, n as int, i));
                    }
                }
            }
            assert forall|n: usize| n != to implies #[trigger] self.in_list(n) =~= old(self).in_list(
                n,
            ) by {
                assert forall|i: int| 0 <= i < topology_in(before, n as int).len() implies 0
                    <= #[trigger] topology_in(before, n as int)[i] < topology_endpoints(before).len() by {
                    if 0 <= n < topology_node_count(before) {
                        assert(sound_in(before, n as int, i));
                    }
                }
            }
            assert(self.out_list(from) =~= seq![Neighbor { edge_id: r, node_id: to }] + old(self).out_list(from)) by {
                assert forall|i: int| 0 <= i < topology_out(before, from as int).len() implies 0
                    <= #[trigger] topology_out(before, from as int)[i] < topology_endpoints(before).len() by {
                    assert(sound_out(before, from as int, i));
                }
            }
            assert(self.in_list(to) =~= seq![Neighbor { edge_id: r, node_id: from }] + old(self).in_list(
                to,
            )) by {
                assert forall|i: int| 0 <= i < topology_in(before, to as int).len() implies 0
                    <= #[trigger] topology_in(before, to as int)[i] < topology_endpoints(before).len() by {
                    assert(sound_in(before, to as int, i));
                }
            }
        }
        r
    }

    /// The edges at the node are removed first. The last node then takes the
    /// index of the node that is removed, with its data.
    fn remove_node(&mut self, node_id: usize) -> (r: Option<NodeData>)
        ensures
            r.is_some() ==> final(self).spec_node_data() == old(self).spec_node_data().update(
                node_id as int,
                old(self).spec_node_data().last(),
            ).drop_last(),
            r.is_none() ==> final(self).spec_node_data() == old(self).spec_node_data(),
            final(self).spec_edge_data().len() <= old(self).spec_edge_data().len(),
    {
        proof {
            lemma_indices_below(self.spec_node_count());
        }
        if !self.contains_node_index(node_id) {
            return None;
        }
        self.remove_edges_at(node_id);
        proof {
            lemma_indices_below(self.spec_node_count());
        }
        topology_remove_node(&mut self.topology, node_id);
        let data = self.node_data.swap_remove(node_id);
        proof {
            lemma_indices_below(self.spec_node_count());
        }
        Some(data)
    }

    /// The last edge takes the index of the edge that is removed, with its
    /// endpoints and its data.
    fn remove_edge(&mut self, edge_id: usize) -> (r: Option<EdgeData>)
        ensures
            final(self).spec_node_data() == old(self).spec_node_data(),
            final(self).spec_edge_data() == swap_removed(old(self).spec_edge_data(), edge_id as int),
            final(self).spec_endpoint_pairs() == swap_removed(
                old(self).spec_endpoint_pairs(),
                edge_id as int,
            ),
            r.is_some() ==> final(self).spec_edge_data() == old(self).spec_edge_data().update(
                edge_id as int,
                old(self).spec_edge_data().last(),
            ).drop_last(),
            r.is_some() ==> forall|e: usize|
                e < final(self).spec_edge_data().len() ==> #[trigger] final(self).spec_endpoints_at(e)
                    == old(self).spec_endpoints_at(
                    if e == edge_id {
                        (old(self).spec_edge_data().len() - 1) as usize
                    } else {
                        e
                    },
                ),
            r.is_none() ==> final(self).spec_edge_data() == old(self).spec_edge_data() && forall|e: usize| #[trigger]
                final(self).spec_endpoints_at(e) == old(self).spec_endpoints_at(e),
    {
        proof {
            lemma_indices_below(self.spec_edge_count());
        }
        if topology_remove_edge(&mut self.topology, edge_id) {
            let data = self.edge_data.swap_remove(edge_id);
            proof {
                lemma_indices_below(self.spec_edge_count());
            }
            Some(data)
        } else {
            None
        }
    }

    /// The edges are removed one after the other, from the last id to the
    /// first. Each time the last edge takes the index of the edge that is
    /// removed, with its endpoints and its data.
    fn remove_edges_sorted(&mut self, edge_ids: &[usize])
        ensures
            final(self).spec_node_data() == old(self).spec_node_data(),
            final(self).spec_edge_data() == removed_from_last(old(self).spec_edge_data(), edge_ids@),
            final(self).spec_endpoint_pairs() == removed_from_last(
                old(self).spec_endpoint_pairs(),
                edge_ids@,
            ),
    {
        let ghost sorted = all_contained(edge_ids@, old(self).edge_ids());
        let ghost mut limit: int = usize::MAX + 1;
        let mut i: usize = edge_ids.len();
        proof {
            assert(edge_ids@.subrange(0, edge_ids@.len() as int) =~= edge_ids@);
        }
        while i > 0
            invariant
                i <= edge_ids@.len(),
                self.valid(),
                sorted == all_contained(edge_ids@, old(self).edge_ids()),
                self.node_ids() == old(self).node_ids(),
                self.spec_node_data() == old(self).spec_node_data(),
                removed_from_last(self.spec_edge_data(), edge_ids@.subrange(0, i as int))
                    == removed_from_last(old(self).spec_edge_data(), edge_ids@),
                removed_from_last(self.spec_endpoint_pairs(), edge_ids@.subrange(0, i as int))
                    == removed_from_last(old(self).spec_endpoint_pairs(), edge_ids@),
                self.edge_ids().len() <= old(self).edge_ids().len(),
                self.edge_ids().len() + (edge_ids@.len() - i) >= old(self).edge_ids().len(),
                i == edge_ids@.len() ==> self.edge_ids() == old(self).edge_ids(),
                limit == (if i < edge_ids@.len() {
                    edge_ids@[i as int] as int
                } else {
                    usize::MAX + 1
                }),
                sorted ==> self.edge_ids().len() == old(self).edge_ids().len() - (edge_ids@.len() - i),
                sorted ==> forall|j: int| 0 <= j < i ==> self.edge_ids().contains(#[trigger] edge_ids@[j]),
                sorted ==> forall|e: usize|
                    e < limit ==> (#[trigger] self.edge_ids().contains(e)) == old(self).edge_ids().contains(e),
                sorted ==> forall|e: usize|
                    e < limit && #[trigger] old(self).edge_ids().contains(e) ==> self.endpoints(e) == old(self).endpoints(e) && self.edge_data_spec(e) == old(self).edge_data_spec(e),
            decreases i,
        {
            i -= 1;
            let ghost before_ids = self.edge_ids();
            let ghost before_endpoints = |e: usize| self.endpoints(e);
            let ghost before_data = |e: usize| self.edge_data_spec(e);
            let edge_id = edge_ids[i];
            proof {
                let places = edge_ids@.subrange(0, i + 1);
                assert(places.drop_last() =~= edge_ids@.subrange(0, i as int));
                assert(places.last() == edge_id);
            }
            self.remove_edge(edge_id);
            proof {
                if sorted {
                    assert(before_ids.contains(edge_ids@[i as int]));
                    assert forall|j: int| 0 <= j < i implies self.edge_ids().contains(
                        #[trigger] edge_ids@[j],
                    ) by {
                        assert(edge_ids@[j] < edge_ids@[i as int]);
                        assert(before_ids.contains(edge_ids@[j]));
                    }
                    if i + 1 < edge_ids@.len() {
                        assert(edge_ids@[i as int] < edge_ids@[i + 1]);
                    }
                    assert forall|e: usize| e < edge_id implies (#[trigger] self.edge_ids().contains(e))
                        == old(self).edge_ids().contains(e) by {
                        assert(self.edge_ids().contains(e) == before_ids.contains(e));
                    }
                    assert forall|e: usize|
                        e < edge_id && #[trigger] old(self).edge_ids().contains(e) implies self.endpoints(e)
                        == old(self).endpoints(e) && self.edge_data_spec(e) == old(self).edge_data_spec(
                        e,
                    ) by {
                        assert(before_ids.contains(e));
                        assert(before_endpoints(e) == old(self).endpoints(e));
                        assert(before_data(e) == old(self).edge_data_spec(e));
                    }
                }
                limit = edge_id as int;
            }
        }
        proof {
            assert(edge_ids@.subrange(0, 0) =~= Seq::<usize>::empty());
        }
    }

    fn clear(&mut self) {
        topology_clear(&mut self.topology);
        self.node_data.clear();
        self.edge_data.clear();
    }
}

impl<NodeData, EdgeData> PetGraph<NodeData, EdgeData> {
    /// The source and the target of the edge with the given index, if there is one.
    pub closed spec fn spec_endpoints_at(&self, edge_id: usize) -> Option<(usize, usize)> {
        if edge_id < topology_endpoints(self.topology).len() {
            Some(
                (
                    topology_endpoints(self.topology)[edge_id as int].0 as usize,
                    topology_endpoints(self.topology)[edge_id as int].1 as usize,
                ),
            )
        } else {
            None
        }
    }
}

impl<NodeData, EdgeData> Default for PetGraph<NodeData, EdgeData> {
    fn default() -> (r: Self)
        ensures
            r.well_formed(),
            r.spec_node_count() == 0,
            r.spec_edge_count() == 0,
    {
        Self::new()
    }
}

impl<NodeData: PartialEq, EdgeData: PartialEq> vstd::std_specs::cmp::PartialEqSpecImpl for PetGraph<NodeData, EdgeData> {
    open spec fn obeys_eq_spec() -> bool {
        NodeData::obeys_eq_spec() && EdgeData::obeys_eq_spec()
    }

    /// Two graphs count as equal if they have as many nodes. They also do if
    /// they have as many edges, the nodes that both have hold equal data, and
    /// their edges have the same endpoints and hold equal data.
    open spec fn eq_spec(&self, other: &Self) -> bool {
        ||| self.spec_node_data().len() == other.spec_node_data().len()
        ||| {
            &&& self.spec_edge_data().len() == other.spec_edge_data().len()
            &&& forall|i: int|
                0 <= i < self.spec_node_data().len() && i < other.spec_node_data().len() ==> (
                #[trigger] self.spec_node_data()[i]).eq_spec(&other.spec_node_data()[i])
            &&& forall|e: usize|
                e < self.spec_edge_data().len() ==> #[trigger] self.spec_endpoints_at(e)
                    == other.spec_endpoints_at(e) && self.spec_edge_data()[e as int].eq_spec(
                    &other.spec_edge_data()[e as int],
                )
        }
    }
}

impl<NodeData: PartialEq, EdgeData: PartialEq> PartialEq for PetGraph<NodeData, EdgeData> {
    fn eq(&self, other: &Self) -> (r: bool) {
        let nodes = self.node_data.len();
        let other_nodes = other.node_data.len();
        if nodes == other_nodes {
            return true;
        }
        let edges = self.edge_data.len();
        if edges != other.edge_data.len() {
            return false;
        }
        let shared = if nodes < other_nodes {
            nodes
        } else {
            other_nodes
        };
        let mut i: usize = 0;
        while i < shared
            invariant
                i <= shared,
                shared <= self.node_data@.len(),
                shared <= other.node_data@.len(),
                self.node_data@.len() != other.node_data@.len(),
                (NodeData::obeys_eq_spec() && EdgeData::obeys_eq_spec()) ==> forall|j: int|
                    0 <= j < i ==> (#[trigger] self.node_data@[j]).eq_spec(&other.node_data@[j]),
            decreases shared - i,
        {
            if self.node_data[i] != other.node_data[i] {
                proof {
                    if (NodeData::obeys_eq_spec() && EdgeData::obeys_eq_spec()) {
                        assert(!self.spec_node_data()[i as int].eq_spec(&other.spec_node_data()[i as int]));
                    }
                }
                return false;
            }
            i += 1;
        }
        let mut e: usize = 0;
        while e < edges
            invariant
                e <= edges,
                edges == self.edge_data@.len(),
                edges == other.edge_data@.len(),
                shared <= self.node_data@.len(),
                shared <= other.node_data@.len(),
                shared == self.node_data@.len() || shared == other.node_data@.len(),
                self.node_data@.len() != other.node_data@.len(),
                (NodeData::obeys_eq_spec() && EdgeData::obeys_eq_spec()) ==> forall|j: int|
                    0 <= j < shared ==> (#[trigger] self.node_data@[j]).eq_spec(&other.node_data@[j]),
                (NodeData::obeys_eq_spec() && EdgeData::obeys_eq_spec()) ==> forall|k: usize|
                    k < e ==> #[trigger] self.spec_endpoints_at(k) == other.spec_endpoints_at(k)
                        && self.edge_data@[k as int].eq_spec(&other.edge_data@[k as int]),
            decreases edges - e,
        {
            let endpoints = topology_edge_endpoints(&self.topology, e);
            let other_endpoints = topology_edge_endpoints(&other.topology, e);
            let same_endpoints = match (endpoints, other_endpoints) {
                (Some(a), Some(b)) => a.0 == b.0 && a.1 == b.1,
                (None, None) => true,
                _ => false,
            };
            if !same_endpoints || self.edge_data[e] != other.edge_data[e] {
                proof {
                    if (NodeData::obeys_eq_spec() && EdgeData::obeys_eq_spec()) {
                        assert(!(self.spec_endpoints_at(e) == other.spec_endpoints_at(e)
                            && self.spec_edge_data()[e as int].eq_spec(&other.spec_edge_data()[e as int])));
                    }
                }
                return false;
            }
            e += 1;
        }
        true
    }
}

impl<NodeData: Eq, EdgeData: Eq> Eq for PetGraph<NodeData, EdgeData> {

}

} // verus!
