[package]
name = "pueue_core"
version = "0.1.0"
edition = "2021"
publish = false

[dependencies]
chrono = "0.4"
handlebars = "6"
nix = { version = "0.29", features = ["signal"] }
