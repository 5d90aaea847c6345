[package]
name = "fault_proof"
version = "0.1.0"
edition = "2021"
publish = false

[dependencies]
alloy-primitives = { version = "1", default-features = false, features = ["std"] }
revm = { version = "*", default-features = false, features = ["std"] }
tokio = { version = "1", default-features = false, features = ["sync", "time", "rt"] }
async-trait = "0.1"
thiserror = "2"
tracing = "0.1"
anyhow = "1"
