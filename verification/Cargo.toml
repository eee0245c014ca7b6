[package]
name = "reipc"
version = "0.1.0"
edition = "2021"

[dependencies]
alloy-json-rpc = "*"
crossbeam = "*"
dashmap = "*"
serde = "*"
serde_json = { version = "*", features = ["raw_value"] }
