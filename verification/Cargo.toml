[package]
name = "svgn"
version = "0.1.0"
edition = "2021"
publish = false

[dependencies]
indexmap = "2"
regex = "1"
quick-xml = "0.38"
serde = { version = "1", features = ["derive"] }
serde_json = "1"
toml = "0.8"
thiserror = "2"
base64 = "0.22"
urlencoding = "2"
clap = "4"
anyhow = "1"
once_cell = "1"
nalgebra = "0.33"
lightningcss = "1.0.0-alpha.72"
