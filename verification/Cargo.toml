[package]
name = "ass-renderer"
version = "0.1.0"
edition = "2021"
publish = false

[dependencies]
ahash = "=0.8.12"
smallvec = "=1.16.4"
fontdb = "*"
rustybuzz = "*"
tiny-skia = "*"
ttf-parser = "*"
