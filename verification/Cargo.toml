[package]
name = "media_core"
version = "0.1.0"
edition = "2021"
publish = false

[dependencies]
unicode-normalization = "0.1"
serde_json = "1"
md5 = "0.7"
serde = { version = "1", features = ["derive"] }
quick-xml = { version = "*", features = ["serialize"] }
walkdir = "2"
fs_extra = "1"
