[package]
name = "mp"
version = "0.1.0"
edition = "2021"
publish = false

[dependencies]
pulldown-cmark = { version = "0.13", default-features = false }
unicode-width = "0.2"
unicode-segmentation = "1"
syntect = { version = "5", default-features = false, features = ["default-fancy"] }
two-face = { version = "0.4", default-features = false, features = ["syntect-fancy"] }
clap = { version = "4", features = ["derive"] }
terminal_size = "0.4"
