[package]
name = "client_sync"
version = "0.1.0"
edition = "2021"
publish = false

[dependencies]
amethyst_core = "=0.15.3"
amethyst_network = "=0.15.3"
bincode = "=1.3.3"
log = "=0.4.34"
serde = { version = "=1.0.229", features = ["derive"] }
