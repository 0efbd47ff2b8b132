[package]
name = "kythe_graph"
version = "0.1.0"
edition = "2021"
publish = false

[dependencies]
base64 = "0.13"
bimap = "0.6"
glob = "0.3"
globset = "0.4"
serde = { version = "1", features = ["derive"] }
serde_json = "1"
clap = { version = "4", features = ["derive"] }
