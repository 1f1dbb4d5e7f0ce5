[package]
name = "nekopet"
version = "0.1.0"
edition = "2021"
publish = false

[dependencies]
image = { version = "0.25", default-features = false, features = ["png"] }
serde = { version = "1", features = ["derive"] }
toml = "0.8"
smithay-client-toolkit = { version = "0.19", default-features = false }
wayland-client = "0.31"
