[package]
name = "stwo"
version = "0.1.0"
edition = "2021"
publish = false

[dependencies]
dashmap = "6"
hashbrown = "=0.15.5"
metal = "*"
rand = "=0.8.8"
rayon = "=1.12.0"
serde = { version = "1", features = ["derive"] }
thiserror = "2"
tracing = "0.1"
