[package]
name = "notegraph"
version = "0.1.0"
edition = "2021"
publish = false

[dependencies]
convert_case = "=0.12.0"
rayon = "=1.12.0"
serde = { version = "=1.0.229", features = ["derive"] }
anyhow = "=1.0.104"
clap = { version = "=4.6.7", features = ["derive"] }
actix-web = { version = "=4.15.0", default-features = false, features = ["macros"] }
typst = "=0.15.1"
typst-svg = "=0.15.1"
typst-layout = "=0.15.1"
typst-assets = { version = "=0.15.1", features = ["fonts"] }
system-fonts = "=0.1.2"
