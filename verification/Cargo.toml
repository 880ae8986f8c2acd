[package]
name = "shell_gui"
version = "0.1.0"
edition = "2021"
publish = false

[dependencies]
chrono = "=0.4.45"
egui = { version = "=0.34.3", default-features = false, features = ["default_fonts"] }
eframe = { version = "=0.34.3", default-features = false, features = ["default_fonts", "wgpu", "x11"] }
