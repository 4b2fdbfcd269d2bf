[package]
name = "corex"
version = "0.1.0"
edition = "2021"
publish = false

[dependencies]
serde_json = "1"
glob = "0.3"
hyper = { version = "0.14", features = ["full"] }
tokio = { version = "1", features = ["full"] }
deno_core = "*"
