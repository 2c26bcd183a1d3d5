[package]
name = "dupe_finder"
version = "0.1.0"
edition = "2021"
publish = false

[dependencies]
anyhow = "1"
clap = { version = "4", features = ["derive"] }
crossbeam-channel = "0.5"
crossbeam-utils = "0.8"
fiemap = "*"
indicatif = "*"
log = "0.4"
multimap = { version = "*", default-features = false }
nix = { version = "*", features = ["fs"] }
simple_logger = "*"
walkdir = "2"
xxhash-rust = { version = "*", features = ["xxh3"] }
