[package]
name = "macro_hd2"
version = "0.1.0"
edition = "2021"
publish = false

[dependencies]
rand = "=0.10.3"
serde = { version = "=1.0.229", features = ["derive"] }
serde_json = "=1.0.154"
anyhow = "=1.0.104"
log = "=0.4.35"
crossbeam-channel = "=0.5.17"
spin_sleep = "=1.3.3"
ureq = "3"
