[package]
name = "streets_sim"
version = "0.1.0"
edition = "2021"
publish = false

[dependencies]
petgraph = "=0.6.5"
rand = "=0.8.8"
nanoid = "=0.4.0"
clap = { version = "=4.6.7", features = ["derive"] }
serde = { version = "=1.0.229", features = ["derive"] }
serde_json = "=1.0.151"
log = "=0.4.34"
simple_logger = "=4.3.3"
tokio = { version = "=1.53.2", features = ["rt-multi-thread"] }
