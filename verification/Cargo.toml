[package]
name = "hyprland_window"
version = "0.1.0"
edition = "2021"
publish = false

[dependencies]
fuzzy-matcher = "*"
psutil = "*"
abi_stable = "*"
anyrun-plugin = "*"
ron = "*"
serde = { version = "*", features = ["derive"] }
serde_json = "*"
