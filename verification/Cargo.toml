[package]
name = "distinct_cache"
version = "0.1.0"
edition = "2021"
publish = false

[dependencies]
datafusion = "43"
arrow = "53"
async-trait = "0.1"
