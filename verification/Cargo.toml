[package]
name = "arbitro_raft"
version = "0.1.0"
edition = "2021"
publish = false

[dependencies]
async-trait = "0.1"
bytes = "1"
futures = "0.3"
tracing = "0.1"
zerocopy = { version = "0.8", features = ["derive"] }
