[package]
name = "egui_android"
version = "0.1.0"
edition = "2021"
publish = false

[dependencies]
egui = "*"
serde = { version = "1", features = ["derive"] }
bincode = "1"
log = "0.4"
