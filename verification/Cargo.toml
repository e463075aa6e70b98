[package]
name = "upload_queue"
version = "0.1.0"
edition = "2021"
publish = false

[dependencies]
anyhow = "1"
bincode = "1"
camino = "1"
clap = { version = "4", features = ["derive"] }
futures = "0.3"
hdrhistogram = { version = "7", default-features = false }
humantime = "2"
itertools = "*"
nix = { version = "*", features = ["fs"] }
regex = "1"
serde = { version = "1", features = ["derive"] }
tokio = { version = "1", features = ["rt-multi-thread", "macros", "time", "sync"] }
tracing = "0.1"
walkdir = "2"
