//! Various implementations of subgraphs.

pub mod bit_vector_subgraph;
pub mod filter_iterators;
pub mod incremental_subgraph;
pub mod induced_bit_vector_subgraph;
pub mod induced_incremental_subgraph;
pub mod subgraph_operators;
