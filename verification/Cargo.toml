[package]
name = "ui_draw"
version = "0.1.0"
edition = "2021"
publish = false

[dependencies]
unicode-normalization = "*"
hibitset = { version = "*", default-features = false }
rusttype = "*"
