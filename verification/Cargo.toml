[package]
name = "voxygen"
version = "0.1.0"
edition = "2021"
publish = false

[dependencies]
async-trait = "0.1"
itertools = "0.10"
levenshtein = "1.0"
