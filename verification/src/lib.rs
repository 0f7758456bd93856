//! Graph traits, graph implementations and graph algorithms, with their
//! behaviour stated in contracts and proved.

pub mod dijkstra;
pub mod dimacs_io;
pub mod implementation;
pub mod interface;
pub mod sequence;
pub mod traversal;
pub mod walks;
