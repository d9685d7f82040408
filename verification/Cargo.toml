[package]
name = "cape"
version = "0.1.0"
edition = "2021"
publish = false

[dependencies]
blake3 = "1"
rand = "0.10"
rayon = "1"
serde = { version = "1", features = ["derive"] }
clap = { version = "4", features = ["derive"] }
csv = "1"

[dev-dependencies]
serde_json = { version = "1", features = ["preserve_order"] }
