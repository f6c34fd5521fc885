[package]
name = "polite"
version = "0.1.0"
edition = "2021"
publish = false

[dependencies]
nix = { version = "*", features = ["process", "resource"] }
reqwest = { version = "0.12", features = ["blocking"] }
