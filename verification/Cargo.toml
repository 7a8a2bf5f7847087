[package]
name = "shape_compare"
version = "0.1.0"
edition = "2021"
publish = false

[dependencies]
ab_glyph = { version = "0.2", features = ["variable-fonts"] }
harfbuzz_rs = "2"
image = { version = "0.25", default-features = false, features = ["png"] }
imageproc = { version = "0.25", default-features = false }
rustybuzz = "*"
