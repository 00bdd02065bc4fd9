[package]
name = "gacho"
version = "0.1.0"
edition = "2021"
publish = false

[dependencies]
zip = { version = "*", default-features = false, features = ["deflate"] }
image = { version = "*", default-features = false, features = ["png", "jpeg"] }
encoding_rs = "*"
regex = "*"
serde = { version = "*", features = ["derive"] }
eframe = { version = "*", default-features = false, features = ["default_fonts", "glow", "persistence", "x11"] }
egui = "*"
rfd = "*"
env_logger = "*"
log = "*"
