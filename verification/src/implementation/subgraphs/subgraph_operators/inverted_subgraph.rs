//! A subgraph that contains all nodes and edges that another subgraph does not contain,
//! except for those edges that are missing endpoints after inversion.
use crate::implementation::subgraphs::filter_iterators::{
    kept, lemma_kept_entries, lemma_kept_increasing, lemma_kept_step,
};
use crate::interface::{increasing, Edge, GraphBase, ImmutableGraphContainer, SubgraphBase};
use vstd::prelude::*;

verus! {

/// The indices from `from` up to `maximum`, the latter included, that the list
/// does not hold, in increasing order.
pub open spec fn absent(list: Seq<usize>, from: int, maximum: int) -> Seq<usize>
    decreases maximum + 1 - from,
{
    if from > maximum || from < 0 || maximum > usize::MAX {
        Seq::empty()
    } else if list.contains(from as usize) {
        absent(list, from + 1, maximum)
    } else {
        seq![from as usize] + absent(list, from + 1, maximum)
    }
}

/// The indices that a list does not hold are those between the two bounds that
/// are not in the list, in increasing order.
pub proof fn lemma_absent(list: Seq<usize>, from: int, maximum: int)
    requires
        0 <= from,
        maximum <= usize::MAX,
    ensures
        increasing(absent(list, from, maximum)),
        forall|x: usize|
            #![trigger absent(list, from, maximum).contains(x)]
            absent(list, from, maximum).contains(x) <==> from <= x <= maximum && !list.contains(x),
    decreases maximum + 1 - from,
{
    if from <= maximum {
        lemma_absent(list, from + 1, maximum);
        let rest = absent(list, from + 1, maximum);
        let all = absent(list, from, maximum);
        if list.contains(from as usize) {
            assert(all == rest);
        } else {
            assert(all == seq![from as usize] + rest);
            assert forall|i: int, j: int| 0 <= i < j < all.len() implies all[i] < all[j] by {
                assert(all[j] == rest[j - 1]);
                assert(rest.contains(rest[j - 1]));
                if i > 0 {
                    assert(all[i] == rest[i - 1]);
                }
            }
            assert forall|x: usize|
                #![trigger all.contains(x)]
                all.contains(x) <==> from <= x <= maximum && !list.contains(x) by {
                if all.contains(x) {
                    let i = choose|i: int| 0 <= i < all.len() && all[i] == x;
                    if i > 0 {
                        assert(rest[i - 1] == x);
                        assert(rest.contains(x));
                    }
                }
                if from <= x <= maximum && !list.contains(x) {
                    if x == from {
                        assert(all[0] == x);
                    } else {
                        assert(rest.contains(x));
                        let i = choose|i: int| 0 <= i < rest.len() && rest[i] == x;
                        assert(all[i + 1] == x);
                    }
                }
            }
        }
    } else {
        assert forall|x: usize| !absent(list, from, maximum).contains(x) by {}
    }
}

/// An iterator that returns all graph indices not present in a list, up to a
/// maximum that is included. The list is expected to be sorted.
pub struct InvertedIndexIterator {
    uninverted_iterator: Vec<usize>,
    position: usize,
    current: usize,
    maximum: usize,
}

impl InvertedIndexIterator {
    /// The list of the indices that are left out.
    pub closed spec fn uninverted(&self) -> Seq<usize> {
        self.uninverted_iterator@
    }

    /// The index from which the iterator goes on.
    pub closed spec fn current(&self) -> int {
        self.current as int
    }

    /// The largest index that the iterator returns.
    pub closed spec fn maximum(&self) -> int {
        self.maximum as int
    }

    /// The invariant: the list is increasing, the iterator stands in it behind
    /// the indices that are smaller than the current one, and the current index
    /// is at most one more than the maximum.
    pub closed spec fn valid(&self) -> bool {
        &&& self.position <= self.uninverted_iterator@.len()
        &&& self.maximum < usize::MAX
        &&& self.current <= self.maximum + 1
        &&& increasing(self.uninverted_iterator@)
        &&& forall|i: int| 0 <= i < self.position ==> #[trigger] self.uninverted_iterator@[i] < self.current
        &&& forall|i: int|
            self.position <= i < self.uninverted_iterator@.len() ==> #[trigger] self.uninverted_iterator@[i]
                >= self.current
    }

    /// Creates an iterator over the indices up to `maximum` that the sorted
    /// list does not hold.
    pub fn new(uninverted_iterator: Vec<usize>, maximum: usize) -> (r: Self)
        requires
            increasing(uninverted_iterator@),
            maximum < usize::MAX,
        ensures
            r.valid(),
            r.uninverted() == uninverted_iterator@,
            r.current() == 0,
            r.maximum() == maximum,
    {
        Self { uninverted_iterator, position: 0, current: 0, maximum }
    }

    /// Returns the next index that the list does not hold, if there is one up
    /// to the maximum.
    pub fn next(&mut self) -> (r: Option<usize>)
        requires
            old(self).valid(),
        ensures
            final(self).valid(),
            final(self).uninverted() == old(self).uninverted(),
            final(self).maximum() == old(self).maximum(),
            match r {
                Some(index) => absent(old(self).uninverted(), old(self).current(), old(self).maximum())
                    == seq![index] + absent(
                    final(self).uninverted(),
                    final(self).current(),
                    final(self).maximum(),
                ) && final(self).current() == index + 1 && index >= old(self).current(),
                None => absent(old(self).uninverted(), old(self).current(), old(self).maximum()).len()
                    == 0 && final(self).current() > final(self).maximum(),
            },
    {
        let ghost list = self.uninverted_iterator@;
        while self.current <= self.maximum
            invariant
                self.valid(),
                self.uninverted_iterator@ == list,
                list == old(self).uninverted_iterator@,
                self.maximum == old(self).maximum,
                self.current >= old(self).current,
                absent(list, self.current as int, self.maximum as int) == absent(
                    list,
                    old(self).current as int,
                    old(self).maximum as int,
                ),
            decreases self.maximum + 1 - self.current,
        {
            if self.position < self.uninverted_iterator.len() {
                let next_missing_index = self.uninverted_iterator[self.position];
                if self.current < next_missing_index {
                    let result = self.current;
                    proof {
                        lemma_not_in_list(list, self.position as int, result);
                    }
                    self.current += 1;
                    return Some(result);
                }
                proof {
                    assert(list[self.position as int] == self.current);
                    assert(list.contains(self.current));
                    assert forall|i: int| self.position + 1 <= i < list.len() implies #[trigger] list[i]
                        >= self.current + 1 by {
                        assert(list[self.position as int] < list[i]);
                    }
                }
                self.current += 1;
                self.position += 1;
            } else {
                let result = self.current;
                proof {
                    lemma_not_in_list(list, self.position as int, result);
                }
                self.current += 1;
                return Some(result);
            }
        }
        None
    }

    /// Returns the indices to come.
    pub fn collect(self) -> (r: Vec<usize>)
        requires
            self.valid(),
        ensures
            r@ == absent(self.uninverted(), self.current(), self.maximum()),
    {
        let ghost all = absent(self.uninverted(), self.current(), self.maximum());
        let mut iterator = self;
        let mut r: Vec<usize> = Vec::new();
        let mut more: bool = true;
        while more
            invariant
                iterator.valid(),
                iterator.maximum() == self.maximum(),
                more ==> all == r@ + absent(
                    iterator.uninverted(),
                    iterator.current(),
                    iterator.maximum(),
                ),
                !more ==> all == r@,
            decreases
                    (if more {
                        2 + iterator.maximum() - iterator.current()
                    } else {
                        0
                    }),
        {
            match iterator.next() {
                Some(index) => {
                    r.push(index);
                    proof {
                        let rest = absent(
                            iterator.uninverted(),
                            iterator.current(),
                            iterator.maximum(),
                        );
                        assert(r@ + rest =~= all);
                    }
                },
                None => {
                    more = false;
                    proof {
                        assert(r@ + Seq::<usize>::empty() =~= r@);
                    }
                },
            }
        }
        r
    }
}

/// An index that is larger than the entries of an increasing list before a
/// place, and smaller than those from the place on, is not in the list.
pub proof fn lemma_not_in_list(list: Seq<usize>, position: int, index: usize)
    requires
        0 <= position <= list.len(),
        forall|i: int| 0 <= i < position ==> #[trigger] list[i] < index,
        forall|i: int| position <= i < list.len() ==> #[trigger] list[i] > index,
    ensures
        !list.contains(index),
{
    if list.contains(index) {
        let i = choose|i: int| 0 <= i < list.len() && list[i] == index;
        if i < position {
            assert(list[i] < index);
        } else {
            assert(list[i] > index);
        }
    }
}

/// A subgraph that contains all nodes and edges that another subgraph does not contain,
/// except for those edges that are missing endpoints after inversion.
pub struct InvertedSubgraph<'a, Graph>(&'a Graph);

impl<'a, Graph> InvertedSubgraph<'a, Graph> {
    /// The subgraph that is inverted.
    pub closed spec fn inner(&self) -> &Graph {
        self.0
    }

    /// Create a new inverted subgraph from the given graph.
    pub fn new(graph: &'a Graph) -> (r: Self)
        ensures
            r.inner() == graph,
    {
        Self(graph)
    }
}

impl<Graph: GraphBase> GraphBase for InvertedSubgraph<'_, Graph> {
    type NodeData = Graph::NodeData;

    type EdgeData = Graph::EdgeData;
}

impl<Graph: SubgraphBase> SubgraphBase for InvertedSubgraph<'_, Graph> {
    type RootGraph = Graph::RootGraph;

    open spec fn root_spec(&self) -> &Self::RootGraph {
        self.inner().root_spec()
    }

    fn root(&self) -> (r: &Self::RootGraph) {
        self.0.root()
    }
}

/// The predicate that holds of the node indices that are not in the graph.
pub open spec fn node_not_in<Graph: ImmutableGraphContainer>(graph: &Graph) -> spec_fn(usize) -> bool {
    |node: usize| !graph.node_ids().contains(node)
}

/// The predicate that holds of the edges of the root that are not in the
/// graph, and whose endpoints are nodes of the root that are not in the graph.
pub open spec fn edge_left<Graph: ImmutableGraphContainer, Root: ImmutableGraphContainer>(
    graph: &Graph,
    root: &Root,
) -> spec_fn(usize) -> bool {
    |edge: usize|
        {
            &&& !graph.edge_ids().contains(edge)
            &&& root.node_ids().contains(root.endpoints(edge).from_node)
            &&& !graph.node_ids().contains(root.endpoints(edge).from_node)
            &&& root.node_ids().contains(root.endpoints(edge).to_node)
            &&& !graph.node_ids().contains(root.endpoints(edge).to_node)
        }
}

impl<Graph: ImmutableGraphContainer + SubgraphBase> ImmutableGraphContainer for InvertedSubgraph<
    '_,
    Graph,
> where
    Graph::RootGraph: ImmutableGraphContainer + GraphBase<
        NodeData = <Graph as GraphBase>::NodeData,
        EdgeData = <Graph as GraphBase>::EdgeData,
    >,
 {
    open spec fn valid(&self) -> bool {
        self.inner().valid() && self.root_spec().valid()
    }

    open spec fn node_ids(&self) -> Seq<usize> {
        kept(self.root_spec().node_ids(), node_not_in(self.inner()))
    }

    open spec fn edge_ids(&self) -> Seq<usize> {
        kept(self.root_spec().edge_ids(), edge_left(self.inner(), self.root_spec()))
    }

    open spec fn node_bound(&self) -> nat {
        self.root_spec().node_bound()
    }

    open spec fn endpoints(&self, edge_id: usize) -> Edge<usize> {
        self.root_spec().endpoints(edge_id)
    }

    open spec fn node_data_spec(&self, node_id: usize) -> Graph::NodeData {
        self.root_spec().node_data_spec(node_id)
    }

    open spec fn edge_data_spec(&self, edge_id: usize) -> Graph::EdgeData {
        self.root_spec().edge_data_spec(edge_id)
    }

    proof fn lemma_ids(&self) {
        self.root_spec().lemma_ids();
        lemma_kept_increasing(self.root_spec().node_ids(), node_not_in(self.inner()));
        lemma_kept_increasing(
            self.root_spec().edge_ids(),
            edge_left(self.inner(), self.root_spec()),
        );
        lemma_kept_entries(self.root_spec().node_ids(), node_not_in(self.inner()));
        assert forall|i: int| 0 <= i < self.node_ids().len() implies #[trigger] self.node_ids()[i]
            < self.node_bound() by {
            let node = self.node_ids()[i];
            assert(self.node_ids().contains(node));
            assert(self.root_spec().node_ids().contains(node));
            let j = choose|j: int|
                0 <= j < self.root_spec().node_ids().len() && self.root_spec().node_ids()[j] == node;
            assert(self.root_spec().node_ids()[j] < self.root_spec().node_bound());
        }
    }

    fn node_indices(&self) -> (r: Vec<usize>) {
        let ghost keep = node_not_in(self.inner());
        let list = self.0.root().node_indices();
        let mut r: Vec<usize> = Vec::new();
        let mut i: usize = 0;
        proof {
            assert(list@.subrange(0, list@.len() as int) =~= list@);
        }
        while i < list.len()
            invariant
                i <= list@.len(),
                self.valid(),
                keep == node_not_in(self.inner()),
                r@ + kept(list@.subrange(i as int, list@.len() as int), keep) == kept(list@, keep),
            decreases list@.len() - i,
        {
            let index = list[i];
            proof {
                lemma_kept_step(list@, keep, i as int);
                let rest = kept(list@.subrange(i + 1, list@.len() as int), keep);
                assert(r@ + (seq![index] + rest) =~= r@.push(index) + rest);
            }
            if !self.0.contains_node_index(index) {
                r.push(index);
            }
            i += 1;
        }
        proof {
            assert(r@ + Seq::<usize>::empty() =~= r@);
        }
        r
    }

    fn edge_indices(&self) -> (r: Vec<usize>) {
        let ghost keep = edge_left(self.inner(), self.root_spec());
        let list = self.0.root().edge_indices();
        let mut r: Vec<usize> = Vec::new();
        let mut i: usize = 0;
        proof {
            assert(list@.subrange(0, list@.len() as int) =~= list@);
        }
        while i < list.len()
            invariant
                i <= list@.len(),
                self.valid(),
                list@ == self.root_spec().edge_ids(),
                keep == edge_left(self.inner(), self.root_spec()),
                r@ + kept(list@.subrange(i as int, list@.len() as int), keep) == kept(list@, keep),
            decreases list@.len() - i,
        {
            let index = list[i];
            proof {
                lemma_kept_step(list@, keep, i as int);
                let rest = kept(list@.subrange(i + 1, list@.len() as int), keep);
                assert(r@ + (seq![index] + rest) =~= r@.push(index) + rest);
                assert(self.root_spec().edge_ids().contains(list@[i as int]));
            }
            if self.edge_is_left(index) {
                r.push(index);
            }
            i += 1;
        }
        proof {
            assert(r@ + Seq::<usize>::empty() =~= r@);
        }
        r
    }

    fn contains_node_index(&self, node_id: usize) -> (r: bool) {
        proof {
            lemma_kept_entries(self.root_spec().node_ids(), node_not_in(self.inner()));
        }
        self.0.root().contains_node_index(node_id) && !self.0.contains_node_index(node_id)
    }

    fn contains_edge_index(&self, edge_id: usize) -> (r: bool) {
        proof {
            lemma_kept_entries(
                self.root_spec().edge_ids(),
                edge_left(self.inner(), self.root_spec()),
            );
        }
        self.0.root().contains_edge_index(edge_id) && self.edge_is_left(edge_id)
    }

    fn node_count(&self) -> (r: usize) {
        self.node_indices().len()
    }

    fn edge_count(&self) -> (r: usize) {
        self.edge_indices().len()
    }

    fn node_data(&self, node_id: usize) -> (r: &Graph::NodeData) {
        proof {
            lemma_kept_entries(self.root_spec().node_ids(), node_not_in(self.inner()));
        }
        self.0.root().node_data(node_id)
    }

    fn edge_data(&self, edge_id: usize) -> (r: &Graph::EdgeData) {
        proof {
            lemma_kept_entries(
                self.root_spec().edge_ids(),
                edge_left(self.inner(), self.root_spec()),
            );
        }
        self.0.root().edge_data(edge_id)
    }

    fn edge_endpoints(&self, edge_id: usize) -> (r: Edge<usize>) {
        proof {
            lemma_kept_entries(
                self.root_spec().edge_ids(),
                edge_left(self.inner(), self.root_spec()),
            );
        }
        self.0.root().edge_endpoints(edge_id)
    }
}

impl<Graph: ImmutableGraphContainer + SubgraphBase> InvertedSubgraph<'_, Graph> where
    Graph::RootGraph: ImmutableGraphContainer,
 {
    /// Returns true if the given edge of the root is not in the inverted
    /// subgraph, and its endpoints are nodes of the root that are not in it.
    fn edge_is_left(&self, edge_id: usize) -> (r: bool)
        requires
            self.inner().valid(),
            self.inner().root_spec().valid(),
            self.inner().root_spec().edge_ids().contains(edge_id),
        ensures
            r == edge_left(self.inner(), self.inner().root_spec())(edge_id),
    {
        if self.0.contains_edge_index(edge_id) {
            return false;
        }
        let endpoints = self.0.root().edge_endpoints(edge_id);
        self.0.root().contains_node_index(endpoints.from_node) && !self.0.contains_node_index(
            endpoints.from_node,
        ) && self.0.root().contains_node_index(endpoints.to_node) && !self.0.contains_node_index(
            endpoints.to_node,
        )
    }
}

} // verus!
