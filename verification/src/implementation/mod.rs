//! Different implementations of the graph traits.

pub mod petgraph_impl;
pub mod subgraphs;
