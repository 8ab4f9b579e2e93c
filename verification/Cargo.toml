[package]
name = "prefork_http"
version = "0.1.0"
edition = "2021"
publish = false

[dependencies]
nix = { version = "*", features = ["poll", "process"] }
config = { version = "*", default-features = false }
serde = { version = "*", features = ["derive"] }
