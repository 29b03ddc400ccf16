[package]
name = "grid_graph"
version = "0.1.0"
edition = "2021"
publish = false

[dependencies]
bitvec = "*"
graph_builder = "*"
