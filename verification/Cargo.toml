[package]
name = "rusty_llama"
version = "0.1.0"
edition = "2021"
publish = false

[dependencies]
rand = "0.9"
oneshot = "0.1"
pin-project-lite = "0.2"
serde = { version = "1", features = ["derive"] }
