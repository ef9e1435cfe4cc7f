[package]
name = "remote_mic"
version = "0.1.0"
edition = "2021"
publish = false

[dependencies]
anyhow = "=1.0.104"
chacha20poly1305 = "=0.10.1"
cpal = "=0.15.3"
crossbeam-channel = "=0.5.17"
dashmap = "=5.5.3"
dioxus = { version = "0.6", default-features = false, features = ["macro", "html", "signals", "hooks"] }
get_if_addrs = "=0.5.3"
once_cell = "=1.21.4"
parking_lot = "=0.12.5"
rand = "=0.8.8"
rfd = { version = "0.15", default-features = false, features = ["xdg-portal", "tokio"] }
serde = { version = "=1.0.229", features = ["derive"] }
serde_json = "=1.0.154"
sha2 = "=0.10.9"
tokio = { version = "=1.54.1", features = ["sync", "time", "rt"] }
