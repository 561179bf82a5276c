[package]
name = "seyfr"
version = "0.1.0"
edition = "2021"
publish = false

[dependencies]
mime_guess = "=2.0.5"
path_jail = "=0.2.0"
serde = { version = "=1.0.229", features = ["derive"] }
serde_json = "=1.0.154"
bytes = "=1.12.1"
futures-util = "=0.3.34"
tokio = { version = "=1.54.1", features = ["rt-multi-thread", "fs", "time", "signal"] }
iroh = { version = "=0.98.2", default-features = false }
iroh-blobs = { version = "=0.100.1", default-features = false }
rustls = { version = "=0.23.46", default-features = false, features = ["ring"] }
