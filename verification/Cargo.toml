[package]
name = "libmcp"
version = "2.1.0"
edition = "2021"
publish = false

[dependencies]
serde = { version = "1", features = ["derive"] }
serde_json = "1"
sha2 = "0.10"
url = "2"
time = { version = "0.3", features = ["formatting"] }
tokio = { version = "1", features = ["io-util", "io-std", "rt-multi-thread", "process", "sync", "time", "macros"] }
rustix = { version = "1", features = ["fs", "process", "event"] }
tempfile = "3"

[dev-dependencies]
serde_json = "1"
