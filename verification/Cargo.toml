[package]
name = "undo"
version = "0.1.0"
edition = "2021"
publish = false

[dependencies]
slab = "0.4"
colored = "2"
chrono = "0.4"
serde = { version = "1", features = ["derive"] }
