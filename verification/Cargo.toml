[package]
name = "cogvlm_image_preprocessor"
version = "0.1.0"
edition = "2021"
publish = false

[dependencies]
rand = "0.8"
rayon = "1"
image = "0.25"
