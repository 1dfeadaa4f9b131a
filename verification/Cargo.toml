[package]
name = "motu"
version = "0.1.0"
edition = "2021"
publish = false

[dependencies]
dashmap = "*"
rand = "*"
tokio = { version = "*", features = ["sync", "rt", "rt-multi-thread", "macros", "time"] }
reqwest = { version = "*", default-features = false, features = ["json", "multipart"] }
serde = { version = "*", features = ["derive"] }
serde_json = "*"
thiserror = "*"
async-zeroconf = "*"
