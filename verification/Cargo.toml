[package]
name = "traitgraph"
version = "0.1.0"
edition = "2021"
publish = false

[dependencies]
bitvec = "1"
hashbrown = "0.14"
num-traits = "0.2"
petgraph = "0.6"
