[package]
name = "imagekit"
version = "0.1.0"
edition = "2021"
publish = false

[dependencies]
anyhow = "1"
clap = { version = "4", features = ["derive"] }
image = { version = "0.25", default-features = false, features = ["bmp", "gif", "jpeg", "png", "webp"] }
rayon = "1"
rusttype = "0.9"
thiserror = "1"
walkdir = "2"

[dev-dependencies]
epaint_default_fonts = "*"
