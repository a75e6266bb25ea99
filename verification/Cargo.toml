[package]
name = "vibrometer"
version = "0.1.0"
edition = "2021"
publish = false

[dependencies]
anyhow = "1"
arrow = { version = "*", default-features = false }
clap = { version = "4", features = ["derive"] }
eframe = { version = "*", default-features = false, features = ["default_fonts", "glow", "x11"] }
heapless = "0.9"
libm = "*"
num-complex = "*"
parquet = { version = "*", default-features = false, features = ["arrow", "snap"] }
postcard = { version = "1", features = ["use-std"] }
rodio = { version = "*", default-features = false, features = ["playback"] }
rustfft = "6"
serde = { version = "1", features = ["derive"] }
serde_json = "1"
toml = "*"
