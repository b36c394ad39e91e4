[package]
name = "node_views"
version = "0.1.0"
edition = "2021"
publish = false

[dependencies]
cgmath = "0.17"
fnv = "1.0"
lru = "0.7"
rand = "0.8"
