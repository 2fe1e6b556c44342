[package]
name = "rustbasic_permission"
version = "0.1.0"
edition = "2021"
publish = false

[dependencies]
rustbasic-core = "=0.1.28"
serde = { version = "=1.0.229", features = ["derive"] }
