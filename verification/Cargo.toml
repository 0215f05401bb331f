[package]
name = "chara_card"
version = "0.1.0"
edition = "2021"
publish = false

[dependencies]
anyhow = "=1.0.104"
avif-decode = "=1.0.2"
base64 = "=0.22.1"
crc32fast = "=1.5.2"
futures = "=0.3.34"
image = "=0.24.9"
lodepng = "=3.12.2"
rayon = "=1.12.0"
reqwest = { version = "=0.11.27", default-features = false }
rgb = "=0.8.53"
serde_json = "=1.0.151"
tokio = { version = "=1.53.2", features = ["rt-multi-thread", "macros", "fs", "io-util"] }
