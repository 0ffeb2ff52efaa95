[package]
name = "ritzel"
version = "0.1.0"
edition = "2021"
publish = false

[dependencies]
eframe = { version = "0.25", default-features = false, features = ["default_fonts", "glow", "wayland", "x11"] }
num-traits = "0.2"
