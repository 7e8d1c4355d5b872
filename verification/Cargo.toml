[package]
name = "n_ohlcv"
version = "0.1.0"
edition = "2021"
publish = false

[dependencies]
bincode = { version = "2", features = ["derive"] }
chrono = "0.4"
eframe = { version = "0.31", default-features = false, features = ["wgpu", "default_fonts", "x11"] }
egui = "0.31"
pollster = "0.4"
reqwest = { version = "0.12", default-features = false, features = ["blocking", "json", "rustls-tls"] }
serde = { version = "1", features = ["derive"] }
serde_json = "1"
sled = "0.34"
xz2 = "0.1"
