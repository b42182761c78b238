[package]
name = "bm_keyboard"
version = "0.1.0"
edition = "2021"
publish = false

[dependencies]
iced = { version = "0.13", default-features = false, features = ["tiny-skia"] }
rdev = "0.5"
core-graphics = "*"
core-foundation = "*"
foreign-types = "*"
