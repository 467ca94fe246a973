[package]
name = "beat_curve"
version = "0.1.0"
edition = "2021"
publish = false

[dependencies]
chrono = { version = "=0.4.45", default-features = false, features = ["clock"] }
eframe = { version = "=0.23.0", default-features = false, features = ["glow"] }
egui = { version = "=0.23.0", default-features = false }
emath = "=0.23.0"
epaint = { version = "=0.23.0", default-features = false }
