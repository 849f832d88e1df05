[package]
name = "chorddb"
version = "0.1.0"
edition = "2021"
publish = false

[dependencies]
sorted-vec = "*"
itertools = "*"
serde = { version = "1", features = ["derive"] }
serde_json = "1"
uuid = { version = "1", features = ["v4", "serde"] }
dashmap = "*"
clap = { version = "4", features = ["derive"] }
log = "0.4"
axum = "0.7"
tokio = { version = "1", features = ["rt-multi-thread", "macros", "net"] }
