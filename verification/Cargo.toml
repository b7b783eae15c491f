[package]
name = "minesweeper"
version = "0.1.0"
edition = "2021"
publish = false

[dependencies]
nanorand = "=0.7.0"
itertools = "=0.10.5"
colored = "=2.2.0"
serde = { version = "=1.0.229", features = ["derive"] }
tap = "=1.0.1"
bevy = { version = "0.8", default-features = false, features = ["render", "bevy_winit", "png", "x11"] }
bevy-inspector-egui = "0.13"
