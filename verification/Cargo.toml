[package]
name = "sad"
version = "0.1.0"
edition = "2021"
publish = false

[dependencies]
aho-corasick = "*"
ansi_term = "*"
async-channel = "*"
difflib = "*"
futures = "*"
regex = "*"
tokio = { version = "*", features = ["rt", "rt-multi-thread", "sync", "net"] }
