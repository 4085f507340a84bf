[package]
name = "forkpool"
version = "0.1.0"
edition = "2021"
publish = false

[dependencies]
anyhow = "1"
bytes = "1"
ctor = "0.2"
futures = "0.3"
libc = "0.2"
libreofficekit = "*"
nix = { version = "0.29", features = ["process", "signal"] }
rmp-serde = "1"
serde = { version = "1", features = ["derive"] }
tokio = { version = "1", features = ["full"] }
tokio-util = { version = "0.7", features = ["codec"] }
tracing = "0.1"
