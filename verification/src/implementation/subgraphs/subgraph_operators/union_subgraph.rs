//! A subgraph built from the union of two graphs.
use crate::interface::{increasing, Edge, GraphBase, ImmutableGraphContainer, SubgraphBase};
use vstd::prelude::*;

verus! {

/// The two lists of indices merged into one: in each step the smaller of the
/// two first indices comes next, and where the two are equal, it comes once.
pub open spec fn merged(a: Seq<usize>, b: Seq<usize>) -> Seq<usize>
    decreases a.len() + b.len(),
{
    if a.len() == 0 {
        b
    } else if b.len() == 0 {
        a
    } else if a[0] < b[0] {
        seq![a[0]] + merged(a.drop_first(), b)
    } else if a[0] == b[0] {
        seq![a[0]] + merged(a.drop_first(), b.drop_first())
    } else {
        seq![b[0]] + merged(a, b.drop_first())
    }
}

/// The rest of an increasing list is increasing, and larger than its first entry.
pub proof fn lemma_rest_increasing(a: Seq<usize>)
    requires
        increasing(a),
        a.len() > 0,
    ensures
        increasing(a.drop_first()),
        forall|x: usize| #[trigger] a.drop_first().contains(x) ==> a[0] < x,
        forall|x: usize| #[trigger] a.contains(x) <==> x == a[0] || a.drop_first().contains(x),
{
    let rest = a.drop_first();
    assert forall|i: int, j: int| 0 <= i < j < rest.len() implies rest[i] < rest[j] by {
        assert(a[i + 1] < a[j + 1]);
    }
    assert forall|x: usize| #[trigger] rest.contains(x) implies a[0] < x by {
        let i = choose|i: int| 0 <= i < rest.len() && rest[i] == x;
        assert(a[0] < a[i + 1]);
    }
    assert forall|x: usize| #[trigger] a.contains(x) <==> x == a[0] || rest.contains(x) by {
        if a.contains(x) {
            let i = choose|i: int| 0 <= i < a.len() && a[i] == x;
            if i > 0 {
                assert(rest[i - 1] == x);
            }
        }
        if rest.contains(x) {
            let i = choose|i: int| 0 <= i < rest.len() && rest[i] == x;
            assert(a[i + 1] == x);
        }
        if x == a[0] {
            assert(a[0] == x);
        }
    }
}

/// An index put before an increasing list of larger indices gives an
/// increasing list, which holds the index and those of the list.
pub proof fn lemma_put_before(first: usize, rest: Seq<usize>)
    requires
        increasing(rest),
        forall|x: usize| rest.contains(x) ==> first < x,
    ensures
        increasing(seq![first] + rest),
        forall|x: usize|
            #![trigger (seq![first] + rest).contains(x)]
            (seq![first] + rest).contains(x) <==> x == first || rest.contains(x),
{
    let all = seq![first] + rest;
    assert forall|i: int, j: int| 0 <= i < j < all.len() implies all[i] < all[j] by {
        assert(all[j] == rest[j - 1]);
        assert(rest.contains(rest[j - 1]));
        if i > 0 {
            assert(all[i] == rest[i - 1]);
        }
    }
    assert forall|x: usize| #![trigger all.contains(x)] all.contains(x) <==> x == first || rest.contains(x) by {
        if all.contains(x) {
            let i = choose|i: int| 0 <= i < all.len() && all[i] == x;
            if i > 0 {
                assert(rest[i - 1] == x);
            }
        }
        if rest.contains(x) {
            let i = choose|i: int| 0 <= i < rest.len() && rest[i] == x;
            assert(all[i + 1] == x);
        }
        if x == first {
            assert(all[0] == x);
        }
    }
}

/// Two increasing lists merged are an increasing list, which holds the
/// indices of the one and of the other.
pub proof fn lemma_merged(a: Seq<usize>, b: Seq<usize>)
    requires
        increasing(a),
        increasing(b),
    ensures
        increasing(merged(a, b)),
        forall|x: usize|
            #![trigger merged(a, b).contains(x)]
            merged(a, b).contains(x) <==> a.contains(x) || b.contains(x),
    decreases a.len() + b.len(),
{
    if a.len() == 0 {
        assert forall|x: usize| !a.contains(x) by {}
    } else if b.len() == 0 {
        assert forall|x: usize| !b.contains(x) by {}
    } else {
        lemma_rest_increasing(a);
        lemma_rest_increasing(b);
        let a_rest = a.drop_first();
        let b_rest = b.drop_first();
        if a[0] < b[0] {
            let rest = merged(a_rest, b);
            lemma_merged(a_rest, b);
            assert forall|x: usize| rest.contains(x) implies a[0] < x by {
                assert(a_rest.contains(x) || b.contains(x));
                if b.contains(x) {
                    assert(x == b[0] || b_rest.contains(x));
                }
            }
            lemma_put_before(a[0], rest);
            assert forall|x: usize|
                #![trigger merged(a, b).contains(x)]
                merged(a, b).contains(x) <==> a.contains(x) || b.contains(x) by {
                assert((seq![a[0]] + rest).contains(x) <==> x == a[0] || rest.contains(x));
                assert(rest.contains(x) <==> a_rest.contains(x) || b.contains(x));
                assert(a.contains(x) <==> x == a[0] || a_rest.contains(x));
            }
        } else if a[0] == b[0] {
            let rest = merged(a_rest, b_rest);
            lemma_merged(a_rest, b_rest);
            assert forall|x: usize| rest.contains(x) implies a[0] < x by {
                assert(a_rest.contains(x) || b_rest.contains(x));
            }
            lemma_put_before(a[0], rest);
            assert forall|x: usize|
                #![trigger merged(a, b).contains(x)]
                merged(a, b).contains(x) <==> a.contains(x) || b.contains(x) by {
                assert((seq![a[0]] + rest).contains(x) <==> x == a[0] || rest.contains(x));
                assert(rest.contains(x) <==> a_rest.contains(x) || b_rest.contains(x));
                assert(a.contains(x) <==> x == a[0] || a_rest.contains(x));
                assert(b.contains(x) <==> x == b[0] || b_rest.contains(x));
            }
        } else {
            let rest = merged(a, b_rest);
            lemma_merged(a, b_rest);
            assert forall|x: usize| rest.contains(x) implies b[0] < x by {
                assert(a.contains(x) || b_rest.contains(x));
                if a.contains(x) {
                    assert(x == a[0] || a_rest.contains(x));
                }
            }
            lemma_put_before(b[0], rest);
            assert forall|x: usize|
                #![trigger merged(a, b).contains(x)]
                merged(a, b).contains(x) <==> a.contains(x) || b.contains(x) by {
                assert((seq![b[0]] + rest).contains(x) <==> x == b[0] || rest.contains(x));
                assert(rest.contains(x) <==> a.contains(x) || b_rest.contains(x));
                assert(b.contains(x) <==> x == b[0] || b_rest.contains(x));
            }
        }
    }
}

/// An iterator that returns the union of two sorted iterators over graph indices.
pub struct UnionIndexIterator {
    index_iterator_0: Vec<usize>,
    position_0: usize,
    index_iterator_1: Vec<usize>,
    position_1: usize,
}

impl UnionIndexIterator {
    /// The indices of the first list that are still to come.
    pub closed spec fn remaining_0(&self) -> Seq<usize> {
        self.index_iterator_0@.subrange(self.position_0 as int, self.index_iterator_0@.len() as int)
    }

    /// The indices of the second list that are still to come.
    pub closed spec fn remaining_1(&self) -> Seq<usize> {
        self.index_iterator_1@.subrange(self.position_1 as int, self.index_iterator_1@.len() as int)
    }

    /// The invariant of the iterator.
    pub closed spec fn valid(&self) -> bool {
        self.position_0 <= self.index_iterator_0@.len() && self.position_1
            <= self.index_iterator_1@.len()
    }

    /// Creates an iterator over the union of the two lists.
    pub fn new(index_iterator_0: Vec<usize>, index_iterator_1: Vec<usize>) -> (r: Self)
        ensures
            r.valid(),
            r.remaining_0() == index_iterator_0@,
            r.remaining_1() == index_iterator_1@,
    {
        proof {
            assert(index_iterator_0@.subrange(0, index_iterator_0@.len() as int) =~= index_iterator_0@);
            assert(index_iterator_1@.subrange(0, index_iterator_1@.len() as int) =~= index_iterator_1@);
        }
        Self { index_iterator_0, position_0: 0, index_iterator_1, position_1: 0 }
    }

    /// Returns the next index of the union, if there is one: the smaller of the
    /// next indices of the two lists.
    pub fn next(&mut self) -> (r: Option<usize>)
        requires
            old(self).valid(),
        ensures
            final(self).valid(),
            final(self).remaining_0().len() + final(self).remaining_1().len() <= old(self).remaining_0().len()
                + old(self).remaining_1().len(),
            match r {
                Some(index) => merged(old(self).remaining_0(), old(self).remaining_1()) == seq![index]
                    + merged(final(self).remaining_0(), final(self).remaining_1())
                    && final(self).remaining_0().len() + final(self).remaining_1().len()
                        < old(self).remaining_0().len() + old(self).remaining_1().len(),
                None => merged(old(self).remaining_0(), old(self).remaining_1()).len() == 0,
            },
    {
        let ghost a = self.remaining_0();
        let ghost b = self.remaining_1();
        let more_0 = self.position_0 < self.index_iterator_0.len();
        let more_1 = self.position_1 < self.index_iterator_1.len();
        if more_0 && more_1 {
            let i0 = self.index_iterator_0[self.position_0];
            let i1 = self.index_iterator_1[self.position_1];
            proof {
                assert(a[0] == i0 && b[0] == i1);
            }
            if i0 < i1 {
                self.position_0 += 1;
                proof {
                    assert(self.remaining_0() =~= a.drop_first());
                }
                Some(i0)
            } else if i0 == i1 {
                self.position_0 += 1;
                self.position_1 += 1;
                proof {
                    assert(self.remaining_0() =~= a.drop_first());
                    assert(self.remaining_1() =~= b.drop_first());
                }
                Some(i1)
            } else {
                self.position_1 += 1;
                proof {
                    assert(self.remaining_1() =~= b.drop_first());
                }
                Some(i1)
            }
        } else if more_0 {
            let i0 = self.index_iterator_0[self.position_0];
            self.position_0 += 1;
            proof {
                assert(a[0] == i0);
                assert(self.remaining_0() =~= a.drop_first());
                assert(a =~= seq![i0] + a.drop_first());
            }
            Some(i0)
        } else if more_1 {
            let i1 = self.index_iterator_1[self.position_1];
            self.position_1 += 1;
            proof {
                assert(b[0] == i1);
                assert(self.remaining_1() =~= b.drop_first());
                assert(b =~= seq![i1] + b.drop_first());
            }
            Some(i1)
        } else {
            None
        }
    }

    /// Returns the indices of the union that are still to come.
    pub fn collect(self) -> (r: Vec<usize>)
        requires
            self.valid(),
        ensures
            r@ == merged(self.remaining_0(), self.remaining_1()),
    {
        let ghost all = merged(self.remaining_0(), self.remaining_1());
        let mut iterator = self;
        let mut r: Vec<usize> = Vec::new();
        let mut more: bool = true;
        while more
            invariant
                iterator.valid(),
                more ==> all == r@ + merged(iterator.remaining_0(), iterator.remaining_1()),
                !more ==> all == r@,
            decreases
                    (if more {
                        1 + iterator.remaining_0().len() + iterator.remaining_1().len()
                    } else {
                        0
                    }),
        {
            match iterator.next() {
                Some(index) => {
                    r.push(index);
                    proof {
                        let rest = merged(iterator.remaining_0(), iterator.remaining_1());
                        assert(r@ + rest =~= all);
                    }
                },
                None => {
                    more = false;
                    proof {
                        assert(r@ + Seq::<usize>::empty() =~= r@);
                    }
                },
            }
        }
        r
    }
}

/// A subgraph built from the union of two graphs.
pub struct UnionSubgraph<'a, Graph0, Graph1>(&'a Graph0, &'a Graph1);

impl<'a, Graph0, Graph1> UnionSubgraph<'a, Graph0, Graph1> {
    /// The first of the two graphs.
    pub closed spec fn first(&self) -> &Graph0 {
        self.0
    }

    /// The second of the two graphs.
    pub closed spec fn second(&self) -> &Graph1 {
        self.1
    }

    /// Construct a new subgraph from the union of the two given graphs.
    pub fn new(graph0: &'a Graph0, graph1: &'a Graph1) -> (r: Self)
        ensures
            r.first() == graph0,
            r.second() == graph1,
    {
        Self(graph0, graph1)
    }
}

impl<Graph0: GraphBase, Graph1: GraphBase> GraphBase for UnionSubgraph<'_, Graph0, Graph1> {
    type NodeData = Graph0::NodeData;

    type EdgeData = Graph0::EdgeData;
}

impl<Graph0: SubgraphBase, Graph1: SubgraphBase> SubgraphBase for UnionSubgraph<'_, Graph0, Graph1> {
    type RootGraph = Graph0::RootGraph;

    closed spec fn root_spec(&self) -> &Self::RootGraph {
        self.0.root_spec()
    }

    fn root(&self) -> (r: &Self::RootGraph) {
        self.0.root()
    }
}

impl<
    Graph0: ImmutableGraphContainer,
    Graph1: ImmutableGraphContainer + GraphBase<
        NodeData = <Graph0 as GraphBase>::NodeData,
        EdgeData = <Graph0 as GraphBase>::EdgeData,
    >,
> ImmutableGraphContainer for UnionSubgraph<'_, Graph0, Graph1> {
    open spec fn valid(&self) -> bool {
        self.first().valid() && self.second().valid()
    }

    open spec fn node_ids(&self) -> Seq<usize> {
        merged(self.first().node_ids(), self.second().node_ids())
    }

    open spec fn edge_ids(&self) -> Seq<usize> {
        merged(self.first().edge_ids(), self.second().edge_ids())
    }

    open spec fn node_bound(&self) -> nat {
        if self.first().node_bound() >= self.second().node_bound() {
            self.first().node_bound()
        } else {
            self.second().node_bound()
        }
    }

    open spec fn endpoints(&self, edge_id: usize) -> Edge<usize> {
        if self.first().edge_ids().contains(edge_id) {
            self.first().endpoints(edge_id)
        } else {
            self.second().endpoints(edge_id)
        }
    }

    open spec fn node_data_spec(&self, node_id: usize) -> Graph0::NodeData {
        if self.first().node_ids().contains(node_id) {
            self.first().node_data_spec(node_id)
        } else {
            self.second().node_data_spec(node_id)
        }
    }

    open spec fn edge_data_spec(&self, edge_id: usize) -> Graph0::EdgeData {
        if self.first().edge_ids().contains(edge_id) {
            self.first().edge_data_spec(edge_id)
        } else {
            self.second().edge_data_spec(edge_id)
        }
    }

    proof fn lemma_ids(&self) {
        self.first().lemma_ids();
        self.second().lemma_ids();
        lemma_merged(self.first().node_ids(), self.second().node_ids());
        lemma_merged(self.first().edge_ids(), self.second().edge_ids());
        assert forall|i: int| 0 <= i < self.node_ids().len() implies #[trigger] self.node_ids()[i]
            < self.node_bound() by {
            let node = self.node_ids()[i];
            assert(self.node_ids().contains(node));
            if self.first().node_ids().contains(node) {
                let j = choose|j: int|
                    0 <= j < self.first().node_ids().len() && self.first().node_ids()[j] == node;
                assert(self.first().node_ids()[j] < self.first().node_bound());
            } else {
                let j = choose|j: int|
                    0 <= j < self.second().node_ids().len() && self.second().node_ids()[j] == node;
                assert(self.second().node_ids()[j] < self.second().node_bound());
            }
        }
    }

    fn node_indices(&self) -> (r: Vec<usize>) {
        UnionIndexIterator::new(self.0.node_indices(), self.1.node_indices()).collect()
    }

    fn edge_indices(&self) -> (r: Vec<usize>) {
        UnionIndexIterator::new(self.0.edge_indices(), self.1.edge_indices()).collect()
    }

    fn contains_node_index(&self, node_id: usize) -> (r: bool) {
        proof {
            self.first().lemma_ids();
            self.second().lemma_ids();
            lemma_merged(self.first().node_ids(), self.second().node_ids());
        }
        self.0.contains_node_index(node_id) || self.1.contains_node_index(node_id)
    }

    fn contains_edge_index(&self, edge_id: usize) -> (r: bool) {
        proof {
            self.first().lemma_ids();
            self.second().lemma_ids();
            lemma_merged(self.first().edge_ids(), self.second().edge_ids());
        }
        self.0.contains_edge_index(edge_id) || self.1.contains_edge_index(edge_id)
    }

    fn node_count(&self) -> (r: usize) {
        self.node_indices().len()
    }

    fn edge_count(&self) -> (r: usize) {
        self.edge_indices().len()
    }

    fn node_data(&self, node_id: usize) -> (r: &Graph0::NodeData) {
        proof {
            self.first().lemma_ids();
            self.second().lemma_ids();
            lemma_merged(self.first().node_ids(), self.second().node_ids());
        }
        if self.0.contains_node_index(node_id) {
            self.0.node_data(node_id)
        } else {
            self.1.node_data(node_id)
        }
    }

    fn edge_data(&self, edge_id: usize) -> (r: &Graph0::EdgeData) {
        proof {
            self.first().lemma_ids();
            self.second().lemma_ids();
            lemma_merged(self.first().edge_ids(), self.second().edge_ids());
        }
        if self.0.contains_edge_index(edge_id) {
            self.0.edge_data(edge_id)
        } else {
            self.1.edge_data(edge_id)
        }
    }

    fn edge_endpoints(&self, edge_id: usize) -> (r: Edge<usize>) {
        proof {
            self.first().lemma_ids();
            self.second().lemma_ids();
            lemma_merged(self.first().edge_ids(), self.second().edge_ids());
        }
        if self.0.contains_edge_index(edge_id) {
            self.0.edge_endpoints(edge_id)
        } else {
            self.1.edge_endpoints(edge_id)
        }
    }
}

} // verus!
