[package]
name = "crisclip"
version = "0.1.0"
edition = "2021"
publish = false

[dependencies]
anyhow = "1"
arboard = "3"
blake3 = { version = "1", features = ["pure"] }
image = { version = "0.25", default-features = false, features = ["png"] }
rand = "0.8"
serde = { version = "1", features = ["derive"] }
snow = "0.9"
toml = "0.8"
x11rb = { version = "0.13", features = ["xfixes"] }
