[package]
name = "forge_display"
version = "0.1.0"
edition = "2021"
publish = false

[dependencies]
syntect = { version = "*", default-features = false, features = ["default-fancy"] }
termimad = "*"
convert_case = "*"
rand = "*"
anyhow = "*"

[dev-dependencies]
strip-ansi-escapes = "*"
