[package]
name = "cottdaw"
version = "0.1.0"
edition = "2021"
publish = false

[dependencies]
petgraph = "=0.6.5"
indexmap = { version = "=2.14.2", features = ["serde"] }
uuid = { version = "=1.29.0", features = ["v4", "serde"] }
serde = { version = "=1.0.229", features = ["derive"] }
serde_json = "=1.0.154"
bincode = "=1.3.3"
zip = { version = "=2.6.1", default-features = false, features = ["deflate"] }
anyhow = "=1.0.104"
midly = { version = "0.5", default-features = false, features = ["alloc"] }
