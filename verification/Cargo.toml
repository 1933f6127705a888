[package]
name = "rush"
version = "0.1.0"
edition = "2021"
publish = false

[dependencies]
anyhow = "=1.0.104"
clap = { version = "=4.6.7", features = ["derive"] }
ffmpeg-next = { version = "=7.1.0", default-features = false, features = ["codec", "format"] }
gstreamer = "=0.23.7"
hound = "=3.5.1"
image = { version = "=0.24.9", default-features = false, features = ["png", "jpeg", "bmp", "gif", "tiff"] }
lofty = "=0.18.2"
opencv = { version = "*", default-features = false, features = ["videoio", "imgcodecs"] }
rayon = "=1.12.0"
regex = "=1.13.1"
rubato = "=0.15.0"
sha2 = "=0.10.9"
tempfile = "=3.27.0"
walkdir = "=2.5.0"
