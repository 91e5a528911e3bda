[package]
name = "exit_node_manager"
version = "0.1.0"
edition = "2021"
publish = false

[dependencies]
anyhow = "=1.0.104"
tokio = { version = "=1.54.1", features = ["sync", "rt", "macros", "net", "process"] }
tracing = "=0.1.44"
pnet = "*"
url = "*"
