[package]
name = "rustium"
version = "0.1.0"
edition = "2021"
publish = false

[dependencies]
aes = "=0.8.4"
cbc = { version = "=0.1.2", features = ["alloc"] }
md-5 = "=0.10.6"
sha2 = "=0.10.9"
flate2 = "=1.1.10"
image = { version = "=0.25.10", default-features = false, features = ["png", "jpeg"] }
tiny-skia = "0.11"
ttf-parser = "0.25"
