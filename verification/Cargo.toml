[package]
name = "scuffle"
version = "0.1.0"
edition = "2021"
publish = false

[dependencies]
anyhow = "=1.0.104"
bytes = "=1.12.1"
http = "=1.5.0"
http-body = "=1.1.0"
httparse = "=1.10.1"
httpdate = "=1.0.3"
itoa = "=1.0.18"
libc = "=0.2.191"
scuffle-amf0 = "=0.2.4"
scuffle-bytes-util = "=0.1.5"
tokio = { version = "=1.54.1", features = ["full"] }
futures = "=0.3.34"
h2 = "=0.4.20"
serde = { version = "=1.0.229", features = ["derive"] }
serde_json = "=1.0.154"
cargo_metadata = "=0.23.1"
thiserror = "=2.0.21"
ulid = "=1.2.1"
