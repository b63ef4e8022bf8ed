[package]
name = "termfront"
version = "0.1.0"
edition = "2021"
publish = false

[dependencies]
anyhow = "=1.0.104"
euclid = "=0.22.14"
glium = { version = "=0.26.0", default-features = false }
image = { version = "=0.23.14", default-features = false, features = ["bmp", "gif", "ico", "jpeg", "png", "pnm", "tga", "tiff", "webp"] }
termwiz = "=0.8.0"
