[package]
name = "gfs"
version = "0.1.0"
edition = "2021"
publish = false

[dependencies]
crc32fast = "1"
dashmap = "6"
anyhow = "1"
async-trait = "0.1"
bincode = "1"
bytes = "1"
clap = { version = "4", features = ["derive", "env"] }
fuser = { version = "*", default-features = false }
libc = "0.2"
parking_lot = "0.12"
serde = { version = "1", features = ["derive"] }
thiserror = "1"
tokio = { version = "1", features = ["full"] }
tokio-stream = "0.1"
tokio-util = "0.7"
tracing = "0.1"
tracing-subscriber = "0.3"
uuid = { version = "1", features = ["v4"] }
