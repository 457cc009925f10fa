[package]
name = "wove"
version = "0.1.0"
edition = "2021"
publish = false

[dependencies]
unicode-segmentation = "1"
unicode-width = "0.2"
crossterm = "0.28"
rustix = { version = "1", features = ["event", "stdio"] }
signal-hook = "0.3"
similar = "2"
pulldown-cmark = { version = "0.12", default-features = false }
