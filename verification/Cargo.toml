[package]
name = "tmuxinator_launcher"
version = "0.1.0"
edition = "2021"
publish = false

[dependencies]
abi_stable = "0.11"
anyrun-plugin = "*"
ron = "0.8"
serde = { version = "1", features = ["derive"] }
