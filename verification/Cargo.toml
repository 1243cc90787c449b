[package]
name = "serial_visualizer"
version = "0.1.0"
edition = "2021"
publish = false

[dependencies]
eframe = { version = "0.24", default-features = false, features = ["glow", "x11"] }
env_logger = { version = "0.11", default-features = false }
serialport = { version = "4", default-features = false }
