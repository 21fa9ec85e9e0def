[package]
name = "egui_minesweeper"
version = "0.1.5"
edition = "2021"
publish = false

[dependencies]
fastrand = "=2.5.0"
egui = { version = "=0.34.3", default-features = false }
