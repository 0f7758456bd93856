//! What a shortest path is, and the facts about shortest paths on which
//! Dijkstra's algorithm rests.
//!
//! The algorithm is described here on a graph of arcs with integer weights, a
//! function from the nodes to their tentative distances, the multiset of the
//! heap's entries and the set of the finalized nodes.
use vstd::multiset::Multiset;
use vstd::prelude::*;

verus! {

/// An arc to a node, with its weight.
pub struct Arc {
    /// The node at the head of the arc.
    pub to: usize,
    /// The weight of the arc.
    pub weight: int,
}

/// A graph as the shortest path search sees it: for each node of the graph
/// the arcs that leave it.
pub struct WeightedGraph {
    /// The arcs that leave each node.
    pub out: Map<usize, Seq<Arc>>,
}

impl WeightedGraph {
    /// True if the graph has the node.
    pub open spec fn has(self, node: usize) -> bool {
        self.out.dom().contains(node)
    }

    /// True if `i` is the place of an arc that leaves `node`.
    pub open spec fn has_arc(self, node: usize, i: int) -> bool {
        self.has(node) && 0 <= i < self.out[node].len()
    }

    /// True if no arc has a negative weight, and every arc leads to a node of
    /// the graph.
    pub open spec fn well_formed(self) -> bool {
        forall|node: usize, i: int| #[trigger]
            self.has_arc(node, i) ==> self.out[node][i].weight >= 0 && self.has(self.out[node][i].to)
    }
}

/// The node at which a walk from `source` along the given arcs ends.
pub open spec fn walk_end(source: usize, arcs: Seq<Arc>) -> usize {
    if arcs.len() == 0 {
        source
    } else {
        arcs.last().to
    }
}

/// True if the arcs form a walk in the graph that starts at `source`: each
/// arc leaves the node at which the arcs before it end.
pub open spec fn is_walk(g: WeightedGraph, source: usize, arcs: Seq<Arc>) -> bool
    decreases arcs.len(),
{
    if arcs.len() == 0 {
        g.has(source)
    } else {
        &&& is_walk(g, source, arcs.drop_last())
        &&& g.has(walk_end(source, arcs.drop_last()))
        &&& g.out[walk_end(source, arcs.drop_last())].contains(arcs.last())
    }
}

/// The sum of the weights of the arcs.
pub open spec fn walk_weight(arcs: Seq<Arc>) -> int
    decreases arcs.len(),
{
    if arcs.len() == 0 {
        0
    } else {
        walk_weight(arcs.drop_last()) + arcs.last().weight
    }
}

/// True if a walk from `source` to `node` has the weight `d`.
pub open spec fn reached_with(g: WeightedGraph, source: usize, node: usize, d: int) -> bool {
    exists|arcs: Seq<Arc>| #[trigger]
        is_walk(g, source, arcs) && walk_end(source, arcs) == node && walk_weight(arcs) == d
}

/// True if a walk leads from `source` to `node`.
pub open spec fn reachable(g: WeightedGraph, source: usize, node: usize) -> bool {
    exists|arcs: Seq<Arc>| #[trigger] is_walk(g, source, arcs) && walk_end(source, arcs) == node
}

/// The node indices below `limit` to which a walk leads from `source`.
pub open spec fn reachable_indices(g: WeightedGraph, source: usize, limit: int) -> Set<int> {
    Set::new(|node: int| 0 <= node < limit && node <= usize::MAX && reachable(g, source, node as usize))
}

/// True if no walk from `source` to `node` has a weight below `d`.
pub open spec fn not_reached_below(g: WeightedGraph, source: usize, node: usize, d: int) -> bool {
    forall|arcs: Seq<Arc>| #[trigger]
        is_walk(g, source, arcs) && walk_end(source, arcs) == node ==> walk_weight(arcs) >= d
}

/// True if `d` is the distance from `source` to `node`: the weight of a
/// lightest walk from the one to the other.
pub open spec fn is_distance(g: WeightedGraph, source: usize, node: usize, d: int) -> bool {
    reached_with(g, source, node, d) && not_reached_below(g, source, node, d)
}

/// The smaller of two integers.
pub open spec fn least_of(a: int, b: int) -> int {
    if a <= b {
        a
    } else {
        b
    }
}

/// The state of a search between two steps.
pub struct SearchState {
    /// The value at which sums stop.
    pub inf: int,
    /// The tentative distance of each node.
    pub val: spec_fn(usize) -> int,
    /// The entries of the heap.
    pub heap: Multiset<(int, usize)>,
    /// The nodes that are finalized.
    pub done: Set<usize>,
    /// The node whose arcs are being relaxed, and how many of them have been.
    pub current: Option<(usize, int)>,
}

impl SearchState {
    /// True if the arcs of the node are being relaxed.
    pub open spec fn is_current(self, node: usize) -> bool {
        self.current.is_some() && self.current.unwrap().0 == node
    }

    /// True if the node is finalized or its arcs are being relaxed.
    pub open spec fn settled(self, node: usize) -> bool {
        self.done.contains(node) || self.is_current(node)
    }

    /// True if the arc at place `i` of a settled node has been relaxed.
    pub open spec fn relaxed(self, g: WeightedGraph, node: usize, i: int) -> bool {
        g.has_arc(node, i) && (self.done.contains(node) || (self.is_current(node) && i
            < self.current.unwrap().1))
    }

    /// Every tentative distance lies between zero and infinity, and below
    /// infinity it is the weight of a walk from the source.
    pub open spec fn values_sound(self, g: WeightedGraph, source: usize) -> bool {
        forall|node: usize|
            {
                let d = #[trigger] (self.val)(node);
                &&& 0 <= d <= self.inf
                &&& d < self.inf ==> g.has(node) && reached_with(g, source, node, d)
            }
    }

    /// Every entry of the heap has a weight between zero and infinity that is
    /// not below the tentative distance of its node, nor below that of a
    /// settled node.
    pub open spec fn entries_sound(self) -> bool {
        &&& forall|e: (int, usize)| #[trigger]
            self.heap.count(e) > 0 ==> 0 <= e.0 < self.inf && (self.val)(e.1) <= e.0
        &&& forall|node: usize, e: (int, usize)|
            self.settled(node) && #[trigger] self.heap.count(e) > 0 ==> #[trigger] (self.val)(node)
                <= e.0
    }

    /// Every node with a tentative distance below infinity that is not
    /// settled has an entry with that distance, and none has two.
    pub open spec fn pending(self) -> bool {
        &&& forall|node: usize|
            (#[trigger] (self.val)(node)) < self.inf && !self.settled(node) ==> self.heap.count(
                ((self.val)(node), node),
            ) > 0
        &&& forall|node: usize| self.heap.count((#[trigger] (self.val)(node), node)) <= 1
    }

    /// The tentative distance of every settled node is its distance, and
    /// the heap has no entry with it.
    pub open spec fn settled_exact(self, g: WeightedGraph, source: usize) -> bool {
        forall|node: usize| #[trigger]
            self.settled(node) ==> {
                &&& (self.val)(node) < self.inf
                &&& not_reached_below(g, source, node, (self.val)(node))
                &&& self.heap.count(((self.val)(node), node)) == 0
            }
    }

    /// No relaxed arc leads to a node with a larger tentative distance than
    /// that of its tail and its weight together.
    pub open spec fn arcs_relaxed(self, g: WeightedGraph) -> bool {
        forall|node: usize, i: int| #[trigger]
            self.relaxed(g, node, i) ==> (self.val)(g.out[node][i].to) <= (self.val)(node)
                + g.out[node][i].weight
    }

    /// No finalized node has a larger tentative distance than the node whose
    /// arcs are being relaxed.
    pub open spec fn settled_ordered(self) -> bool {
        forall|node: usize|
            self.current.is_some() && #[trigger] self.done.contains(node) ==> (self.val)(node) <= (
            self.val)(self.current.unwrap().0)
    }

    /// The invariant of the search.
    pub open spec fn consistent(self, g: WeightedGraph, source: usize) -> bool {
        &&& g.well_formed()
        &&& g.has(source)
        &&& 0 < self.inf
        &&& (self.val)(source) == 0
        &&& self.done.finite()
        &&& self.current.is_some() ==> !self.done.contains(self.current.unwrap().0) && 0
            <= self.current.unwrap().1
        &&& self.values_sound(g, source)
        &&& self.entries_sound()
        &&& self.pending()
        &&& self.settled_exact(g, source)
        &&& self.arcs_relaxed(g)
        &&& self.settled_ordered()
    }
}

/// A walk ends at a node of the graph, and its weight is not negative.
pub proof fn lemma_walk_basics(g: WeightedGraph, source: usize, arcs: Seq<Arc>)
    requires
        g.well_formed(),
        is_walk(g, source, arcs),
    ensures
        g.has(walk_end(source, arcs)),
        walk_weight(arcs) >= 0,
    decreases arcs.len(),
{
    if arcs.len() > 0 {
        let before = arcs.drop_last();
        lemma_walk_basics(g, source, before);
        let tail = walk_end(source, before);
        let i = choose|i: int| 0 <= i < g.out[tail].len() && g.out[tail][i] == arcs.last();
        assert(g.has_arc(tail, i));
    }
}

/// A walk followed by an arc that leaves its end is a walk.
pub proof fn lemma_walk_extend(g: WeightedGraph, source: usize, arcs: Seq<Arc>, i: int)
    requires
        is_walk(g, source, arcs),
        g.has_arc(walk_end(source, arcs), i),
    ensures
        is_walk(g, source, arcs.push(g.out[walk_end(source, arcs)][i])),
        walk_end(source, arcs.push(g.out[walk_end(source, arcs)][i])) == g.out[walk_end(
            source,
            arcs,
        )][i].to,
        walk_weight(arcs.push(g.out[walk_end(source, arcs)][i])) == walk_weight(arcs) + g.out[walk_end(
            source,
            arcs,
        )][i].weight,
{
    let arc = g.out[walk_end(source, arcs)][i];
    let longer = arcs.push(arc);
    assert(longer.drop_last() =~= arcs);
    assert(longer.last() == arc);
}

/// The frontier of the search: while no arcs are being relaxed, no walk is
/// lighter than the lightest entry of the heap and the tentative distance of
/// its end allow.
pub proof fn lemma_frontier(
    s: SearchState,
    g: WeightedGraph,
    source: usize,
    least: int,
    arcs: Seq<Arc>,
)
    requires
        s.consistent(g, source),
        s.current.is_none(),
        least <= s.inf,
        forall|e: (int, usize)| #[trigger] s.heap.count(e) > 0 ==> least <= e.0,
        is_walk(g, source, arcs),
    ensures
        walk_weight(arcs) >= least_of(least, (s.val)(walk_end(source, arcs))),
    decreases arcs.len(),
{
    if arcs.len() > 0 {
        let before = arcs.drop_last();
        assert(is_walk(g, source, before));
        lemma_frontier(s, g, source, least, before);
        lemma_walk_basics(g, source, before);
        let tail = walk_end(source, before);
        assert(is_walk(g, source, before) && walk_end(source, before) == tail);
        let i = choose|i: int| 0 <= i < g.out[tail].len() && g.out[tail][i] == arcs.last();
        assert(g.has_arc(tail, i));
        if s.done.contains(tail) {
            assert(s.settled(tail));
            assert(not_reached_below(g, source, tail, (s.val)(tail)));
            assert(walk_weight(before) >= (s.val)(tail));
            assert(s.relaxed(g, tail, i));
        } else {
            assert(!s.settled(tail));
            if (s.val)(tail) < s.inf {
                assert(s.heap.count(((s.val)(tail), tail)) > 0);
            }
        }
    }
}

/// The state in which a search starts: the source has the distance zero and
/// the one entry of the heap, every other node is at infinity.
pub proof fn lemma_seeded(s: SearchState, g: WeightedGraph, source: usize)
    requires
        g.well_formed(),
        g.has(source),
        0 < s.inf,
        forall|node: usize| #[trigger] (s.val)(node) == (if node == source { 0 } else { s.inf }),
        s.heap == Multiset::<(int, usize)>::empty().insert((0int, source)),
        s.done == Set::<usize>::empty(),
        s.current.is_none(),
    ensures
        s.consistent(g, source),
{
    let empty = Seq::<Arc>::empty();
    assert(is_walk(g, source, empty) && walk_end(source, empty) == source && walk_weight(empty) == 0);
    assert(reached_with(g, source, source, 0));
    assert forall|node: usize|
        {
            let d = #[trigger] (s.val)(node);
            &&& 0 <= d <= s.inf
            &&& d < s.inf ==> g.has(node) && reached_with(g, source, node, d)
        } by {
        assert((s.val)(node) == (if node == source { 0 } else { s.inf }));
    }
    assert forall|node: usize| s.heap.count((#[trigger] (s.val)(node), node)) <= 1 by {
        assert((s.val)(node) == (if node == source { 0 } else { s.inf }));
    }
}

/// Taking an entry out of the heap whose weight is above the tentative
/// distance of its node keeps the invariant.
pub proof fn lemma_pop_stale(s: SearchState, t: SearchState, g: WeightedGraph, source: usize, e: (int, usize))
    requires
        s.consistent(g, source),
        s.current.is_none(),
        s.heap.count(e) > 0,
        (s.val)(e.1) < e.0,
        t == (SearchState { heap: s.heap.remove(e), ..s }),
    ensures
        t.consistent(g, source),
{
    assert forall|x: (int, usize)| #[trigger] t.heap.count(x) > 0 implies s.heap.count(x) > 0 by {}
    assert forall|node: usize| t.settled(node) == s.settled(node) by {}
    assert forall|node: usize, i: int| t.relaxed(g, node, i) == s.relaxed(g, node, i) by {}
    assert forall|node: usize| #[trigger] t.settled(node) implies {
        &&& (t.val)(node) < t.inf
        &&& not_reached_below(g, source, node, (t.val)(node))
        &&& t.heap.count(((t.val)(node), node)) == 0
    } by {
        assert(s.settled(node));
    }
    assert forall|node: usize, i: int| #[trigger] t.relaxed(g, node, i) implies (t.val)(
        g.out[node][i].to,
    ) <= (t.val)(node) + g.out[node][i].weight by {
        assert(s.relaxed(g, node, i));
    }
}

/// Taking the least entry out of the heap, where its weight is the tentative
/// distance of its node: the node was not finalized, the weight is its
/// distance, and its arcs can be relaxed.
pub proof fn lemma_pop_exact(s: SearchState, t: SearchState, g: WeightedGraph, source: usize, e: (int, usize))
    requires
        s.consistent(g, source),
        s.current.is_none(),
        s.heap.count(e) > 0,
        forall|other: (int, usize)| #[trigger] s.heap.count(other) > 0 ==> e.0 <= other.0,
        (s.val)(e.1) == e.0,
        t == (SearchState { heap: s.heap.remove(e), current: Some((e.1, 0int)), ..s }),
    ensures
        !s.done.contains(e.1),
        g.has(e.1),
        is_distance(g, source, e.1, e.0),
        t.consistent(g, source),
{
    let v = e.1;
    assert(e == ((s.val)(v), v));
    if s.done.contains(v) {
        assert(s.settled(v));
    }
    assert forall|arcs: Seq<Arc>| #[trigger]
        is_walk(g, source, arcs) && walk_end(source, arcs) == v implies walk_weight(arcs) >= e.0 by {
        lemma_frontier(s, g, source, e.0, arcs);
    }
    assert forall|x: (int, usize)| #[trigger] t.heap.count(x) > 0 implies s.heap.count(x) > 0 by {}
    assert forall|node: usize| #[trigger] t.settled(node) implies {
        &&& (t.val)(node) < t.inf
        &&& not_reached_below(g, source, node, (t.val)(node))
        &&& t.heap.count(((t.val)(node), node)) == 0
    } by {
        if node == v {
            assert(s.heap.count(((s.val)(v), v)) <= 1);
        } else {
            assert(s.settled(node));
        }
    }
    assert forall|node: usize, x: (int, usize)|
        t.settled(node) && #[trigger] t.heap.count(x) > 0 implies #[trigger] (t.val)(node) <= x.0 by {
        assert(s.heap.count(x) > 0);
        if node != v {
            assert(s.settled(node));
        }
    }
    assert forall|node: usize| (#[trigger] (t.val)(node)) < t.inf && !t.settled(node) implies t.heap.count(
        ((t.val)(node), node),
    ) > 0 by {
        assert(!s.settled(node));
    }
    assert forall|node: usize| t.heap.count((#[trigger] (t.val)(node), node)) <= 1 by {
        assert(s.heap.count(((s.val)(node), node)) <= 1);
    }
    assert forall|node: usize, i: int| #[trigger] t.relaxed(g, node, i) implies (t.val)(
        g.out[node][i].to,
    ) <= (t.val)(node) + g.out[node][i].weight by {
        assert(s.relaxed(g, node, i));
    }
    assert forall|node: usize| t.current.is_some() && #[trigger] t.done.contains(node) implies (t.val)(
        node,
    ) <= (t.val)(t.current.unwrap().0) by {
        assert(s.settled(node));
    }
}

/// Relaxing an arc that leads to no improvement keeps the invariant.
pub proof fn lemma_relax_kept(s: SearchState, t: SearchState, g: WeightedGraph, source: usize)
    requires
        s.consistent(g, source),
        s.current.is_some(),
        g.has_arc(s.current.unwrap().0, s.current.unwrap().1),
        (s.val)(g.out[s.current.unwrap().0][s.current.unwrap().1].to) <= (s.val)(s.current.unwrap().0)
            + g.out[s.current.unwrap().0][s.current.unwrap().1].weight,
        t == (SearchState { current: Some((s.current.unwrap().0, s.current.unwrap().1 + 1)), ..s }),
    ensures
        t.consistent(g, source),
{
    assert forall|node: usize| t.settled(node) == s.settled(node) by {}
    assert forall|node: usize| #[trigger] t.settled(node) implies {
        &&& (t.val)(node) < t.inf
        &&& not_reached_below(g, source, node, (t.val)(node))
        &&& t.heap.count(((t.val)(node), node)) == 0
    } by {
        assert(s.settled(node));
    }
    assert forall|node: usize, i: int| #[trigger] t.relaxed(g, node, i) implies (t.val)(
        g.out[node][i].to,
    ) <= (t.val)(node) + g.out[node][i].weight by {
        if !(node == s.current.unwrap().0 && i == s.current.unwrap().1) {
            assert(s.relaxed(g, node, i));
        }
    }
    assert forall|node: usize, x: (int, usize)|
        t.settled(node) && #[trigger] t.heap.count(x) > 0 implies #[trigger] (t.val)(node) <= x.0 by {
        assert(s.settled(node));
    }
}

/// Relaxing an arc that leads to an improvement: the node at its head gets
/// the new tentative distance and an entry with it, and the invariant is kept.
pub proof fn lemma_relax_improved(s: SearchState, t: SearchState, g: WeightedGraph, source: usize)
    requires
        s.consistent(g, source),
        s.current.is_some(),
        g.has_arc(s.current.unwrap().0, s.current.unwrap().1),
        (s.val)(s.current.unwrap().0) + g.out[s.current.unwrap().0][s.current.unwrap().1].weight < (
        s.val)(g.out[s.current.unwrap().0][s.current.unwrap().1].to),
        t.inf == s.inf,
        t.done == s.done,
        t.current == Some((s.current.unwrap().0, s.current.unwrap().1 + 1)),
        t.heap == s.heap.insert(
            (
                (s.val)(s.current.unwrap().0) + g.out[s.current.unwrap().0][s.current.unwrap().1].weight,
                g.out[s.current.unwrap().0][s.current.unwrap().1].to,
            ),
        ),
        forall|node: usize| #[trigger]
            (t.val)(node) == (if node == g.out[s.current.unwrap().0][s.current.unwrap().1].to {
                (s.val)(s.current.unwrap().0) + g.out[s.current.unwrap().0][s.current.unwrap().1].weight
            } else {
                (s.val)(node)
            }),
    ensures
        t.consistent(g, source),
        !s.settled(g.out[s.current.unwrap().0][s.current.unwrap().1].to),
{
    let v = s.current.unwrap().0;
    let k = s.current.unwrap().1;
    let arc = g.out[v][k];
    let x = arc.to;
    let c = (s.val)(v) + arc.weight;
    assert(s.settled(v));
    assert((s.val)(v) < s.inf);
    assert(0 <= (s.val)(v));
    assert(arc.weight >= 0 && g.has(x));
    // A walk to the head of the arc with the new distance.
    let to_v = choose|arcs: Seq<Arc>| #[trigger]
        is_walk(g, source, arcs) && walk_end(source, arcs) == v && walk_weight(arcs) == (s.val)(v);
    lemma_walk_extend(g, source, to_v, k);
    let to_x = to_v.push(arc);
    assert(is_walk(g, source, to_x) && walk_end(source, to_x) == x && walk_weight(to_x) == c);
    assert(reached_with(g, source, x, c));
    if s.settled(x) {
        assert(not_reached_below(g, source, x, (s.val)(x)));
        assert(false);
    }
    assert(x != source) by {
        assert((s.val)(x) <= s.inf);
    }
    assert((s.val)(x) <= s.inf);
    assert forall|node: usize| t.settled(node) == s.settled(node) by {}
    assert forall|node: usize|
        {
            let d = #[trigger] (t.val)(node);
            &&& 0 <= d <= t.inf
            &&& d < t.inf ==> g.has(node) && reached_with(g, source, node, d)
        } by {
        assert((s.val)(node) <= s.inf);
    }
    assert forall|y: (int, usize)| #[trigger] t.heap.count(y) > 0 implies 0 <= y.0 < t.inf && (t.val)(
        y.1,
    ) <= y.0 by {
        if y != (c, x) {
            assert(s.heap.count(y) > 0);
        }
    }
    assert forall|node: usize, y: (int, usize)|
        t.settled(node) && #[trigger] t.heap.count(y) > 0 implies #[trigger] (t.val)(node) <= y.0 by {
        assert(s.settled(node));
        if y != (c, x) {
            assert(s.heap.count(y) > 0);
        } else {
            if node != v {
                assert(s.done.contains(node));
            }
        }
    }
    assert forall|node: usize| (#[trigger] (t.val)(node)) < t.inf && !t.settled(node) implies t.heap.count(
        ((t.val)(node), node),
    ) > 0 by {
        if node != x {
            assert((s.val)(node) < s.inf && !s.settled(node));
        }
    }
    assert forall|node: usize| t.heap.count((#[trigger] (t.val)(node), node)) <= 1 by {
        if node == x {
            if s.heap.count((c, x)) > 0 {
                assert((s.val)(x) <= c);
            }
        } else {
            assert(s.heap.count(((s.val)(node), node)) <= 1);
        }
    }
    assert forall|node: usize| #[trigger] t.settled(node) implies {
        &&& (t.val)(node) < t.inf
        &&& not_reached_below(g, source, node, (t.val)(node))
        &&& t.heap.count(((t.val)(node), node)) == 0
    } by {
        assert(s.settled(node));
    }
    assert forall|node: usize, i: int| #[trigger] t.relaxed(g, node, i) implies (t.val)(
        g.out[node][i].to,
    ) <= (t.val)(node) + g.out[node][i].weight by {
        assert(s.settled(node));
        if !(node == v && i == k) {
            assert(s.relaxed(g, node, i));
            assert((t.val)(g.out[node][i].to) <= (s.val)(g.out[node][i].to));
        }
    }
    assert forall|node: usize| t.current.is_some() && #[trigger] t.done.contains(node) implies (t.val)(
        node,
    ) <= (t.val)(t.current.unwrap().0) by {
        assert(s.settled(node));
    }
}

/// When all arcs of a node have been relaxed, the node is finalized.
pub proof fn lemma_finalize(s: SearchState, t: SearchState, g: WeightedGraph, source: usize)
    requires
        s.consistent(g, source),
        s.current.is_some(),
        g.has(s.current.unwrap().0),
        s.current.unwrap().1 == g.out[s.current.unwrap().0].len(),
        t == (SearchState { done: s.done.insert(s.current.unwrap().0), current: None, ..s }),
    ensures
        t.consistent(g, source),
{
    assert forall|node: usize| t.settled(node) == s.settled(node) by {}
    assert forall|node: usize, i: int| t.relaxed(g, node, i) == s.relaxed(g, node, i) by {}
    assert forall|node: usize| #[trigger] t.settled(node) implies {
        &&& (t.val)(node) < t.inf
        &&& not_reached_below(g, source, node, (t.val)(node))
        &&& t.heap.count(((t.val)(node), node)) == 0
    } by {
        assert(s.settled(node));
    }
    assert forall|node: usize, i: int| #[trigger] t.relaxed(g, node, i) implies (t.val)(
        g.out[node][i].to,
    ) <= (t.val)(node) + g.out[node][i].weight by {
        assert(s.relaxed(g, node, i));
    }
    assert forall|node: usize, x: (int, usize)|
        t.settled(node) && #[trigger] t.heap.count(x) > 0 implies #[trigger] (t.val)(node) <= x.0 by {
        assert(s.settled(node));
    }
    assert forall|node: usize| (#[trigger] (t.val)(node)) < t.inf && !t.settled(node) implies t.heap.count(
        ((t.val)(node), node),
    ) > 0 by {
        assert(!s.settled(node));
    }
}

/// While no arcs are being relaxed, every walk that is lighter than all
/// entries of the heap ends at a finalized node.
pub proof fn lemma_light_walks_done(
    s: SearchState,
    g: WeightedGraph,
    source: usize,
    least: int,
    arcs: Seq<Arc>,
)
    requires
        s.consistent(g, source),
        s.current.is_none(),
        least <= s.inf,
        forall|e: (int, usize)| #[trigger] s.heap.count(e) > 0 ==> least <= e.0,
        is_walk(g, source, arcs),
        walk_weight(arcs) < least,
    ensures
        s.done.contains(walk_end(source, arcs)),
{
    lemma_frontier(s, g, source, least, arcs);
    let end = walk_end(source, arcs);
    if !s.done.contains(end) {
        assert(!s.settled(end));
        assert((s.val)(end) < s.inf);
        assert(s.heap.count(((s.val)(end), end)) > 0);
    }
}

} // verus!
