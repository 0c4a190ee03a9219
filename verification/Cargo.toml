[package]
name = "ink_analysis"
version = "0.1.0"
edition = "2021"
publish = false

[dependencies]
petgraph = "0.6"
regex = "1"
serde = { version = "1", features = ["derive"] }
serde_json = "1"
walkdir = "2"
ignore = "0.4"
rayon = "1"
dashmap = "6"
thiserror = "1"
