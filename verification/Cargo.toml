[package]
name = "cyclonedds_rs"
version = "0.1.0"
edition = "2021"
publish = false

[dependencies]
cdr = "*"
futures-util = "*"
libc = "0.2"
murmur3 = "*"
serde = { version = "1", features = ["derive"] }
serde_json = "1"
tracing = "0.1"
uuid = "*"
