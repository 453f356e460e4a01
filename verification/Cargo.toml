[package]
name = "iconpack"
version = "0.1.0"
edition = "2021"
publish = false

[dependencies]
usvg = "=0.48.1"
resvg = "=0.48.1"
tiny-skia = "=0.12.0"
hex_color = "=3.0.0"
serde = { version = "=1.0.229", features = ["derive"] }
serde_json = "=1.0.151"
rayon = "=1.12.0"
chrono = "=0.4.45"
anyhow = "=1.0.104"
reqwest = { version = "=0.12.28", default-features = false, features = ["blocking", "json", "rustls-tls"] }
