//! Writing a graph as text: the number of nodes and edges, then one line
//! for each edge.
use crate::interface::{ImmutableGraphContainer, NavigableGraph, StaticGraph};
use vstd::prelude::*;

verus! {

/// The decimal digits of a number as ASCII characters, without leading zeros.
pub open spec fn decimal(n: nat) -> Seq<u8>
    decreases n,
{
    if n < 10 {
        seq![(48 + n) as u8]
    } else {
        decimal(n / 10).push((48 + n % 10) as u8)
    }
}

/// The line of an edge: the decimal digits of its endpoints with a space
/// between them, and a line feed.
pub open spec fn edge_line(from: usize, to: usize) -> Seq<u8> {
    decimal(from as nat) + seq![32u8] + decimal(to as nat) + seq![10u8]
}

/// The lines of the first `count` outgoing edges of a node.
pub open spec fn edge_lines<Graph: NavigableGraph>(graph: &Graph, node: usize, count: nat) -> Seq<u8>
    decreases count,
{
    if count == 0 {
        Seq::empty()
    } else {
        edge_lines(graph, node, (count - 1) as nat) + edge_line(
            node,
            graph.out_list(node)[count - 1].node_id,
        )
    }
}

/// The lines of the outgoing edges of the first `count` nodes of the graph.
pub open spec fn node_lines<Graph: NavigableGraph>(graph: &Graph, count: nat) -> Seq<u8>
    decreases count,
{
    if count == 0 {
        Seq::empty()
    } else {
        node_lines(graph, (count - 1) as nat) + edge_lines(
            graph,
            graph.node_ids()[count - 1],
            graph.out_list(graph.node_ids()[count - 1]).len(),
        )
    }
}

/// The text of the topology of a graph: a line with the number of nodes and
/// the number of edges, then the lines of the outgoing edges of each node, in
/// the order of the nodes.
pub open spec fn topology_text<Graph: NavigableGraph>(graph: &Graph) -> Seq<u8> {
    decimal(graph.node_ids().len()) + seq![32u8] + decimal(graph.edge_ids().len()) + seq![10u8]
        + node_lines(graph, graph.node_ids().len())
}

/// Appends the decimal digits of a number.
pub fn write_decimal(writer: &mut Vec<u8>, n: usize)
    ensures
        final(writer)@ == old(writer)@ + decimal(n as nat),
{
    let mut low_digits: Vec<u8> = Vec::new();
    let mut rest: usize = n;
    while rest >= 10
        invariant
            decimal(n as nat) == decimal(rest as nat) + low_digits@.reverse(),
        decreases rest,
    {
        let digit: u8 = 48 + (rest % 10) as u8;
        proof {
            assert(low_digits@.push(digit).reverse() =~= seq![digit] + low_digits@.reverse());
            assert(decimal(rest as nat) == decimal((rest / 10) as nat).push(digit));
            assert(decimal((rest / 10) as nat).push(digit) + low_digits@.reverse() =~= decimal(
                (rest / 10) as nat,
            ) + (seq![digit] + low_digits@.reverse()));
        }
        low_digits.push(digit);
        rest = rest / 10;
    }
    writer.push(48 + rest as u8);
    let mut i: usize = low_digits.len();
    proof {
        assert(low_digits@.reverse().subrange(0, 0) =~= Seq::<u8>::empty());
        assert(writer@ =~= old(writer)@ + decimal(rest as nat) + low_digits@.reverse().subrange(0, 0));
    }
    while i > 0
        invariant
            i <= low_digits@.len(),
            writer@ == old(writer)@ + decimal(rest as nat) + low_digits@.reverse().subrange(
                0,
                low_digits@.len() - i,
            ),
        decreases i,
    {
        i -= 1;
        writer.push(low_digits[i]);
        proof {
            let reversed = low_digits@.reverse();
            let done = low_digits@.len() - i;
            assert(reversed[done - 1] == low_digits@[i as int]);
            assert(reversed.subrange(0, done - 1).push(reversed[done - 1]) =~= reversed.subrange(0, done));
            assert(writer@ =~= old(writer)@ + decimal(rest as nat) + reversed.subrange(0, done));
        }
    }
    proof {
        let reversed = low_digits@.reverse();
        assert(reversed.subrange(0, low_digits@.len() as int) =~= reversed);
        assert(old(writer)@ + decimal(rest as nat) + reversed =~= old(writer)@ + (decimal(rest as nat)
            + reversed));
    }
}

/// Appends the line of an edge.
pub fn write_edge_line(writer: &mut Vec<u8>, from: usize, to: usize)
    ensures
        final(writer)@ == old(writer)@ + edge_line(from, to),
{
    write_decimal(writer, from);
    writer.push(32);
    write_decimal(writer, to);
    writer.push(10);
    proof {
        assert(writer@ =~= old(writer)@ + edge_line(from, to));
    }
}

/// Write the graph in the following format, ignoring node and edge data.
///
/// ```text
/// <node count> <edge count>
/// <from node> <to node>
/// ```
///
/// The second line is repeated for each edge.
pub fn write_topology<Graph: StaticGraph>(graph: &Graph, writer: &mut Vec<u8>)
    requires
        graph.valid(),
    ensures
        final(writer)@ == old(writer)@ + topology_text(graph),
{
    write_decimal(writer, graph.node_count());
    writer.push(32);
    write_decimal(writer, graph.edge_count());
    writer.push(10);
    let ghost header = writer@;
    let nodes = graph.node_indices();
    let mut n: usize = 0;
    proof {
        assert(header =~= old(writer)@ + (decimal(graph.node_ids().len()) + seq![32u8] + decimal(
            graph.edge_ids().len(),
        ) + seq![10u8]));
        assert(header + node_lines(graph, 0) =~= header);
    }
    while n < nodes.len()
        invariant
            n <= nodes@.len(),
            nodes@ == graph.node_ids(),
            graph.valid(),
            writer@ == header + node_lines(graph, n as nat),
        decreases nodes@.len() - n,
    {
        let node = nodes[n];
        let ghost before = writer@;
        let neighbors = graph.out_neighbors(node);
        let mut e: usize = 0;
        proof {
            assert(before + edge_lines(graph, node, 0) =~= before);
        }
        while e < neighbors.len()
            invariant
                e <= neighbors@.len(),
                neighbors@ == graph.out_list(node),
                writer@ == before + edge_lines(graph, node, e as nat),
            decreases neighbors@.len() - e,
        {
            write_edge_line(writer, node, neighbors[e].node_id);
            proof {
                assert(before + edge_lines(graph, node, e as nat) + edge_line(
                    node,
                    neighbors@[e as int].node_id,
                ) =~= before + edge_lines(graph, node, (e + 1) as nat));
            }
            e += 1;
        }
        proof {
            assert(header + node_lines(graph, n as nat) + edge_lines(
                graph,
                node,
                neighbors@.len(),
            ) =~= header + node_lines(graph, (n + 1) as nat));
        }
        n += 1;
    }
    proof {
        assert(header + node_lines(graph, nodes@.len()) =~= old(writer)@ + topology_text(graph));
    }
}

} // verus!
