[package]
name = "photo_selector"
version = "0.1.0"
edition = "2021"
publish = false

[dependencies]
image = "*"
kamadak-exif = "*"
walkdir = "*"
rayon = "*"
