[package]
name = "agentmem-core"
version = "0.1.0"
edition = "2021"
publish = false

[dependencies]
sha2 = "0.10"
cxx = "1.0"
rocksdb = "0.21"
serde = { version = "1.0", features = ["derive"] }
rmp-serde = "1.1"
bincode = "1.3"
uuid = { version = "1", features = ["v4"] }
tokio = { version = "1", features = ["rt", "time"] }
instant-distance = "0.6"
thiserror = "1"
tonic = { version = "0.12", default-features = false }
