[package]
name = "effectful"
version = "0.1.0"
edition = "2021"
publish = false

[dependencies]
itertools = "0.12"
petgraph = "0.6"
rand = "0.8"
