[package]
name = "anneml"
version = "0.1.0"
edition = "2021"
publish = false

[dependencies]
arrayfire = { version = "3.8", features = ["afserde"] }
bincode = "1.3"
rustc-hash = "1.1"
serde = { version = "1", features = ["derive"] }
uuid = { version = "0.8", features = ["v4", "serde"] }
