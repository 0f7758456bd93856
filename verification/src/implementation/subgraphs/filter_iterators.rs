//! Iterators that filter out nodes or edges missing from subgraphs.
use crate::interface::{increasing, ImmutableGraphContainer, Neighbor};
use vstd::prelude::*;

verus! {

/// The entries of the list that the predicate keeps, in the order of the list.
pub open spec fn kept<A>(list: Seq<A>, keep: spec_fn(A) -> bool) -> Seq<A>
    decreases list.len(),
{
    if list.len() == 0 {
        Seq::empty()
    } else if keep(list[0]) {
        seq![list[0]] + kept(list.drop_first(), keep)
    } else {
        kept(list.drop_first(), keep)
    }
}

/// What is kept of the list from the place `from` on: the entry at that place,
/// if it is kept, and what is kept after it.
pub proof fn lemma_kept_step<A>(list: Seq<A>, keep: spec_fn(A) -> bool, from: int)
    requires
        0 <= from < list.len(),
    ensures
        kept(list.subrange(from, list.len() as int), keep) == (if keep(list[from]) {
            seq![list[from]] + kept(list.subrange(from + 1, list.len() as int), keep)
        } else {
            kept(list.subrange(from + 1, list.len() as int), keep)
        }),
{
    let rest = list.subrange(from, list.len() as int);
    assert(rest.drop_first() =~= list.subrange(from + 1, list.len() as int));
    assert(rest[0] == list[from]);
}

/// What is kept of a list are the entries of the list that the predicate keeps.
pub proof fn lemma_kept_entries<A>(list: Seq<A>, keep: spec_fn(A) -> bool)
    ensures
        forall|x: A|
            #![trigger kept(list, keep).contains(x)]
            #![trigger list.contains(x)]
            kept(list, keep).contains(x) <==> list.contains(x) && keep(x),
        kept(list, keep).len() <= list.len(),
    decreases list.len(),
{
    if list.len() > 0 {
        let rest = list.drop_first();
        let tail = kept(rest, keep);
        lemma_kept_entries(rest, keep);
        let result = kept(list, keep);
        let shift: int = if keep(list[0]) {
            1
        } else {
            0
        };
        assert(result.len() == tail.len() + shift);
        assert forall|i: int| 0 <= i < tail.len() implies result[i + shift] == tail[i] by {}
        assert forall|x: A|
            #![trigger result.contains(x)]
            #![trigger list.contains(x)]
            result.contains(x) <==> list.contains(x) && keep(x) by {
            if result.contains(x) {
                let i = choose|i: int| 0 <= i < result.len() && result[i] == x;
                if shift == 1 && i == 0 {
                    assert(list[0] == x);
                } else {
                    assert(tail[i - shift] == x);
                    assert(tail.contains(x));
                    assert(rest.contains(x));
                    let j = choose|j: int| 0 <= j < rest.len() && rest[j] == x;
                    assert(list[j + 1] == x);
                }
            }
            if list.contains(x) && keep(x) {
                let j = choose|j: int| 0 <= j < list.len() && list[j] == x;
                if j == 0 {
                    assert(result[0] == x);
                } else {
                    assert(rest[j - 1] == x);
                    assert(rest.contains(x));
                    assert(tail.contains(x));
                    let i = choose|i: int| 0 <= i < tail.len() && tail[i] == x;
                    assert(result[i + shift] == x);
                }
            }
        }
    }
}

/// What is kept of an increasing list of indices is increasing.
pub proof fn lemma_kept_increasing(list: Seq<usize>, keep: spec_fn(usize) -> bool)
    requires
        increasing(list),
    ensures
        increasing(kept(list, keep)),
    decreases list.len(),
{
    if list.len() > 0 {
        let rest = list.drop_first();
        let tail = kept(rest, keep);
        assert(increasing(rest)) by {
            assert forall|i: int, j: int| 0 <= i < j < rest.len() implies rest[i] < rest[j] by {
                assert(list[i + 1] < list[j + 1]);
            }
        }
        lemma_kept_increasing(rest, keep);
        lemma_kept_entries(rest, keep);
        let result = kept(list, keep);
        if keep(list[0]) {
            assert(result.len() == tail.len() + 1);
            assert forall|i: int| 0 <= i < tail.len() implies result[i + 1] == tail[i] by {}
            assert forall|i: int, j: int| 0 <= i < j < result.len() implies result[i] < result[j] by {
                assert(result[j] == tail[j - 1]);
                if i == 0 {
                    let x = tail[j - 1];
                    assert(tail.contains(x));
                    assert(rest.contains(x));
                    let k = choose|k: int| 0 <= k < rest.len() && rest[k] == x;
                    assert(list[0] < list[k + 1]);
                } else {
                    assert(result[i] == tail[i - 1]);
                    assert(tail[i - 1] < tail[j - 1]);
                }
            }
        }
    }
}

/// The predicate that holds of the neighbors whose edges are in the graph.
pub open spec fn neighbor_in<Graph: ImmutableGraphContainer>(graph: &Graph) -> spec_fn(
    Neighbor<usize, usize>,
) -> bool {
    |neighbor: Neighbor<usize, usize>| graph.edge_ids().contains(neighbor.edge_id)
}

/// The predicate that holds of the edge indices that are in the graph.
pub open spec fn edge_in<Graph: ImmutableGraphContainer>(graph: &Graph) -> spec_fn(usize) -> bool {
    |edge: usize| graph.edge_ids().contains(edge)
}

/// The predicate that holds of the node indices that are in the graph.
pub open spec fn node_in<Graph: ImmutableGraphContainer>(graph: &Graph) -> spec_fn(usize) -> bool {
    |node: usize| graph.node_ids().contains(node)
}

/// The node indices of the list that are in the graph.
pub open spec fn nodes_in<Graph: ImmutableGraphContainer>(graph: &Graph, list: Seq<usize>) -> Seq<
    usize,
> {
    kept(list, node_in(graph))
}

/// The neighbors of the list whose edges are in the graph.
pub open spec fn neighbors_in<Graph: ImmutableGraphContainer>(
    graph: &Graph,
    list: Seq<Neighbor<usize, usize>>,
) -> Seq<Neighbor<usize, usize>> {
    kept(list, neighbor_in(graph))
}

/// The neighbors of the list whose edges are in the graph are neighbors of
/// the list, and their edges are in the graph.
pub proof fn lemma_neighbors_in<Graph: ImmutableGraphContainer>(
    graph: &Graph,
    list: Seq<Neighbor<usize, usize>>,
)
    ensures
        forall|i: int|
            0 <= i < neighbors_in(graph, list).len() ==> list.contains(
                #[trigger] neighbors_in(graph, list)[i],
            ) && graph.edge_ids().contains(neighbors_in(graph, list)[i].edge_id),
{
    let keep = neighbor_in(graph);
    lemma_kept_entries(list, keep);
    assert forall|i: int| 0 <= i < neighbors_in(graph, list).len() implies list.contains(
        #[trigger] neighbors_in(graph, list)[i],
    ) && graph.edge_ids().contains(neighbors_in(graph, list)[i].edge_id) by {
        let neighbor = neighbors_in(graph, list)[i];
        assert(kept(list, keep).contains(neighbor));
        assert(keep(neighbor));
    }
}

/// The edge indices of the list that are in the graph.
pub open spec fn edges_in<Graph: ImmutableGraphContainer>(graph: &Graph, list: Seq<usize>) -> Seq<
    usize,
> {
    kept(list, edge_in(graph))
}

/// An iterator over the neighbors of a node in a subgraph.
pub struct FilterNeighborIterator<'a, Graph> {
    iterator: Vec<Neighbor<usize, usize>>,
    position: usize,
    graph: &'a Graph,
}

impl<'a, Graph: ImmutableGraphContainer> FilterNeighborIterator<'a, Graph> {
    /// The graph whose edges are let through.
    pub closed spec fn spec_graph(&self) -> &Graph {
        self.graph
    }

    /// The neighbors that the iterator has not looked at yet.
    pub closed spec fn remaining(&self) -> Seq<Neighbor<usize, usize>> {
        self.iterator@.subrange(self.position as int, self.iterator@.len() as int)
    }

    /// The invariant of the iterator.
    pub closed spec fn valid(&self) -> bool {
        self.position <= self.iterator@.len()
    }

    /// Creates a new instance iterating over the given `iterator` while filtering out edges that are not in `graph`.
    pub fn new(iterator: Vec<Neighbor<usize, usize>>, graph: &'a Graph) -> (r: Self)
        ensures
            r.valid(),
            r.spec_graph() == graph,
            r.remaining() == iterator@,
    {
        proof {
            assert(iterator@.subrange(0, iterator@.len() as int) =~= iterator@);
        }
        Self { iterator, position: 0, graph }
    }

    /// Returns the next neighbor whose edge is in the graph, if there is one.
    pub fn next(&mut self) -> (r: Option<Neighbor<usize, usize>>)
        requires
            old(self).valid(),
            old(self).spec_graph().valid(),
        ensures
            final(self).valid(),
            final(self).spec_graph() == old(self).spec_graph(),
            r.is_some() ==> final(self).remaining().len() < old(self).remaining().len(),
            match r {
                Some(neighbor) => neighbors_in(old(self).spec_graph(), old(self).remaining()) == seq![
                    neighbor,
                ] + neighbors_in(final(self).spec_graph(), final(self).remaining()),
                None => neighbors_in(old(self).spec_graph(), old(self).remaining()).len() == 0
                    && final(self).remaining().len() == 0,
            },
    {
        let ghost keep = neighbor_in(self.graph);
        while self.position < self.iterator.len()
            invariant
                old(self).position <= self.position <= self.iterator@.len(),
                self.iterator == old(self).iterator,
                self.graph == old(self).graph,
                self.graph.valid(),
                keep == neighbor_in(self.graph),
                kept(self.remaining(), keep) == kept(old(self).remaining(), keep),
            decreases self.iterator@.len() - self.position,
        {
            let neighbor = self.iterator[self.position];
            proof {
                lemma_kept_step(self.iterator@, keep, self.position as int);
            }
            self.position += 1;
            if self.graph.contains_edge_index(neighbor.edge_id) {
                return Some(neighbor);
            }
        }
        None
    }

    /// Returns the neighbors to come whose edges are in the graph.
    pub fn collect(self) -> (r: Vec<Neighbor<usize, usize>>)
        requires
            self.valid(),
            self.spec_graph().valid(),
        ensures
            r@ == neighbors_in(self.spec_graph(), self.remaining()),
    {
        let ghost all = neighbors_in(self.spec_graph(), self.remaining());
        let mut iterator = self;
        let mut r: Vec<Neighbor<usize, usize>> = Vec::new();
        let mut more: bool = true;
        while more
            invariant
                iterator.valid(),
                iterator.spec_graph() == self.spec_graph(),
                iterator.spec_graph().valid(),
                more ==> all == r@ + neighbors_in(iterator.spec_graph(), iterator.remaining()),
                !more ==> all == r@,
            decreases
                    (if more {
                        1 + iterator.remaining().len()
                    } else {
                        0
                    }),
        {
            let ghost before = iterator.remaining();
            match iterator.next() {
                Some(neighbor) => {
                    r.push(neighbor);
                    proof {
                        let rest = neighbors_in(iterator.spec_graph(), iterator.remaining());
                        assert(r@ + rest =~= all);
                    }
                },
                None => {
                    more = false;
                    proof {
                        assert(r@ + Seq::<Neighbor<usize, usize>>::empty() =~= r@);
                    }
                },
            }
        }
        r
    }
}

/// An iterator over the edge indices of a subgraph.
pub struct FilterEdgeIndexIterator<'a, Graph> {
    iterator: Vec<usize>,
    position: usize,
    graph: &'a Graph,
}

impl<'a, Graph: ImmutableGraphContainer> FilterEdgeIndexIterator<'a, Graph> {
    /// The graph whose edges are let through.
    pub closed spec fn spec_graph(&self) -> &Graph {
        self.graph
    }

    /// The edge indices that the iterator has not looked at yet.
    pub closed spec fn remaining(&self) -> Seq<usize> {
        self.iterator@.subrange(self.position as int, self.iterator@.len() as int)
    }

    /// The invariant of the iterator.
    pub closed spec fn valid(&self) -> bool {
        self.position <= self.iterator@.len()
    }

    /// Creates a new instance iterating over the given `iterator` while filtering out edges that are not in `graph`.
    pub fn new(iterator: Vec<usize>, graph: &'a Graph) -> (r: Self)
        ensures
            r.valid(),
            r.spec_graph() == graph,
            r.remaining() == iterator@,
    {
        proof {
            assert(iterator@.subrange(0, iterator@.len() as int) =~= iterator@);
        }
        Self { iterator, position: 0, graph }
    }

    /// Returns the next edge index that is in the graph, if there is one.
    pub fn next(&mut self) -> (r: Option<usize>)
        requires
            old(self).valid(),
            old(self).spec_graph().valid(),
        ensures
            final(self).valid(),
            final(self).spec_graph() == old(self).spec_graph(),
            r.is_some() ==> final(self).remaining().len() < old(self).remaining().len(),
            match r {
                Some(edge) => edges_in(old(self).spec_graph(), old(self).remaining())
                    == seq![edge] + edges_in(final(self).spec_graph(), final(self).remaining()),
                None => edges_in(old(self).spec_graph(), old(self).remaining()).len() == 0
                    && final(self).remaining().len() == 0,
            },
    {
        let ghost keep = edge_in(self.graph);
        while self.position < self.iterator.len()
            invariant
                old(self).position <= self.position <= self.iterator@.len(),
                self.iterator == old(self).iterator,
                self.graph == old(self).graph,
                self.graph.valid(),
                keep == edge_in(self.graph),
                kept(self.remaining(), keep) == kept(old(self).remaining(), keep),
            decreases self.iterator@.len() - self.position,
        {
            let edge = self.iterator[self.position];
            proof {
                lemma_kept_step(self.iterator@, keep, self.position as int);
            }
            self.position += 1;
            if self.graph.contains_edge_index(edge) {
                return Some(edge);
            }
        }
        None
    }

    /// Returns the edge indices to come that are in the graph.
    pub fn collect(self) -> (r: Vec<usize>)
        requires
            self.valid(),
            self.spec_graph().valid(),
        ensures
            r@ == edges_in(self.spec_graph(), self.remaining()),
    {
        let ghost all = edges_in(self.spec_graph(), self.remaining());
        let mut iterator = self;
        let mut r: Vec<usize> = Vec::new();
        let mut more: bool = true;
        while more
            invariant
                iterator.valid(),
                iterator.spec_graph() == self.spec_graph(),
                iterator.spec_graph().valid(),
                more ==> all == r@ + edges_in(iterator.spec_graph(), iterator.remaining()),
                !more ==> all == r@,
            decreases
                    (if more {
                        1 + iterator.remaining().len()
                    } else {
                        0
                    }),
        {
            let ghost before = iterator.remaining();
            match iterator.next() {
                Some(edge) => {
                    r.push(edge);
                    proof {
                        let rest = edges_in(iterator.spec_graph(), iterator.remaining());
                        assert(r@ + rest =~= all);
                    }
                },
                None => {
                    more = false;
                    proof {
                        assert(r@ + Seq::<usize>::empty() =~= r@);
                    }
                },
            }
        }
        r
    }
}

/// An iterator over the node indices of a subgraph.
pub struct FilterNodeIndexIterator<'a, Graph> {
    iterator: Vec<usize>,
    position: usize,
    graph: &'a Graph,
}

impl<'a, Graph: ImmutableGraphContainer> FilterNodeIndexIterator<'a, Graph> {
    /// The graph whose nodes are let through.
    pub closed spec fn spec_graph(&self) -> &Graph {
        self.graph
    }

    /// The node indices that the iterator has not looked at yet.
    pub closed spec fn remaining(&self) -> Seq<usize> {
        self.iterator@.subrange(self.position as int, self.iterator@.len() as int)
    }

    /// The invariant of the iterator.
    pub closed spec fn valid(&self) -> bool {
        self.position <= self.iterator@.len()
    }

    /// Creates a new instance iterating over the given `iterator` while filtering out nodes that are not in `graph`.
    pub fn new(iterator: Vec<usize>, graph: &'a Graph) -> (r: Self)
        ensures
            r.valid(),
            r.spec_graph() == graph,
            r.remaining() == iterator@,
    {
        proof {
            assert(iterator@.subrange(0, iterator@.len() as int) =~= iterator@);
        }
        Self { iterator, position: 0, graph }
    }

    /// Returns the next node index that is in the graph, if there is one.
    pub fn next(&mut self) -> (r: Option<usize>)
        requires
            old(self).valid(),
            old(self).spec_graph().valid(),
        ensures
            final(self).valid(),
            final(self).spec_graph() == old(self).spec_graph(),
            r.is_some() ==> final(self).remaining().len() < old(self).remaining().len(),
            match r {
                Some(node) => nodes_in(old(self).spec_graph(), old(self).remaining())
                    == seq![node] + nodes_in(final(self).spec_graph(), final(self).remaining()),
                None => nodes_in(old(self).spec_graph(), old(self).remaining()).len() == 0
                    && final(self).remaining().len() == 0,
            },
    {
        let ghost keep = node_in(self.graph);
        while self.position < self.iterator.len()
            invariant
                old(self).position <= self.position <= self.iterator@.len(),
                self.iterator == old(self).iterator,
                self.graph == old(self).graph,
                self.graph.valid(),
                keep == node_in(self.graph),
                kept(self.remaining(), keep) == kept(old(self).remaining(), keep),
            decreases self.iterator@.len() - self.position,
        {
            let node = self.iterator[self.position];
            proof {
                lemma_kept_step(self.iterator@, keep, self.position as int);
            }
            self.position += 1;
            if self.graph.contains_node_index(node) {
                return Some(node);
            }
        }
        None
    }

    /// Returns the node indices to come that are in the graph.
    pub fn collect(self) -> (r: Vec<usize>)
        requires
            self.valid(),
            self.spec_graph().valid(),
        ensures
            r@ == nodes_in(self.spec_graph(), self.remaining()),
    {
        let ghost all = nodes_in(self.spec_graph(), self.remaining());
        let mut iterator = self;
        let mut r: Vec<usize> = Vec::new();
        let mut more: bool = true;
        while more
            invariant
                iterator.valid(),
                iterator.spec_graph() == self.spec_graph(),
                iterator.spec_graph().valid(),
                more ==> all == r@ + nodes_in(iterator.spec_graph(), iterator.remaining()),
                !more ==> all == r@,
            decreases
                    (if more {
                        1 + iterator.remaining().len()
                    } else {
                        0
                    }),
        {
            let ghost before = iterator.remaining();
            match iterator.next() {
                Some(node) => {
                    r.push(node);
                    proof {
                        let rest = nodes_in(iterator.spec_graph(), iterator.remaining());
                        assert(r@ + rest =~= all);
                    }
                },
                None => {
                    more = false;
                    proof {
                        assert(r@ + Seq::<usize>::empty() =~= r@);
                    }
                },
            }
        }
        r
    }
}

} // verus!
