[package]
name = "editor"
version = "0.1.0"
edition = "2021"
publish = false

[dependencies]
toml_edit = "*"
syn = { version = "2", features = ["full"] }
