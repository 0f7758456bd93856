//! Inverting subgraphs and computing the union of subgraphs.

pub mod inverted_subgraph;
pub mod union_subgraph;
