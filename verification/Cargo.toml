[package]
name = "prefix_ddns"
version = "0.1.0"
edition = "2021"
publish = false

[dependencies]
anyhow = "1"
async-stream = "0.3"
axum = "0.7"
chrono = "0.4"
clap = { version = "4", features = ["derive"] }
colored = "2"
futures = "0.3"
mime_guess = "2"
netlink-packet-core = "0.7"
netlink-packet-route = "0.19"
netlink-sys = { version = "0.8", features = ["tokio_socket"] }
reqwest = { version = "0.12", default-features = false, features = ["rustls-tls"] }
rtnetlink = "0.14"
serde = { version = "1", features = ["derive"] }
serde_json = "1"
tokio = { version = "1", features = ["full"] }
