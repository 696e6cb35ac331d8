[package]
name = "turm"
version = "0.1.0"
edition = "2021"
publish = false

[dependencies]
eframe = { version = "0.29", default-features = false, features = ["default_fonts", "glow", "x11"] }
egui = "0.29"
font-kit = "0.14"
libc = "0.2"
nix = { version = "0.27", features = ["fs", "process", "term"] }
polling = "3"
