[package]
name = "dhcpcluster"
version = "0.1.0"
edition = "2021"
publish = false

[dependencies]
ciborium = "0.2"
rand = "0.8"
rustyline = "15"
serde = { version = "1", features = ["derive"] }
terminal_size = "0.4"
thiserror = "2"
toml = "0.8"
