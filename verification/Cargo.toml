[package]
name = "deltaweave"
version = "0.1.0"
edition = "2021"
publish = false

[dependencies]
anyhow = "1"
blake3 = "1"
hex = "0.4"
iroh = "*"
postcard = { version = "1", features = ["use-std"] }
redb = "*"
rustix = { version = "1", features = ["fs", "process"] }
serde = { version = "1", features = ["derive"] }
subtle = "2"
thiserror = "2"
tokio = { version = "1", features = ["full"] }
