[package]
name = "priority_sorter"
version = "0.1.0"
edition = "2021"
publish = false

[dependencies]
iced = { version = "0.13", default-features = false, features = ["tiny-skia"] }
iced_core = "0.13"
once_cell = "1"

[dev-dependencies]
rand = "0.8"
