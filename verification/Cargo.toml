[package]
name = "nclr_core"
version = "0.1.0"
edition = "2021"
publish = false

[dependencies]
anyhow = "*"
clap = { version = "*", features = ["derive"] }
image = { version = "*", default-features = false, features = ["png", "jpeg", "tiff"] }
lcms2 = "*"
rayon = "*"
rgb = "*"
walkdir = "*"

[dev-dependencies]
tiff = "*"
