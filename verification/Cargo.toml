[package]
name = "boltconn"
version = "0.1.0"
edition = "2021"
publish = false

[dependencies]
anyhow = "1"
base64 = "0.21"
bytes = "1"
dashmap = "5"
fast-socks5 = "*"
flume = "0.11"
httparse = "1"
is-root = "*"
linked-hash-map = "0.5"
regex = "1"
reqwest = { version = "0.11", default-features = false }
serde = { version = "1", features = ["derive"] }
serde_yaml = "0.9"
smoltcp = { version = "0.9", default-features = false, features = ["std", "medium-ip", "proto-ipv4", "proto-ipv6", "socket-tcp", "socket-udp"] }
structopt = "0.3"
tokio = { version = "1", features = ["rt-multi-thread", "net", "io-util", "sync", "time", "macros", "signal"] }
tracing = "0.1"
