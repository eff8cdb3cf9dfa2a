[package]
name = "terrain_stream"
version = "0.1.0"
edition = "2021"
publish = false

[dependencies]
hexx = "=0.25.0"
log = "=0.4.34"
serde = { version = "=1.0.229", features = ["derive"] }
spacetimedb-lib = "=2.9.0"
