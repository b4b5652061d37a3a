[package]
name = "tessitura"
version = "0.1.0"
edition = "2021"
publish = false

[dependencies]
async-trait = "*"
base64 = "*"
chrono = "*"
clap = { version = "*", features = ["derive"] }
dirs = "*"
flate2 = "*"
lofty = "*"
reqwest = { version = "*", default-features = false, features = ["json", "rustls-tls"] }
rusty-chromaprint = "*"
serde = { version = "*", features = ["derive"] }
serde_json = "*"
symphonia = "*"
tokio = { version = "*", features = ["rt-multi-thread", "macros", "time", "sync"] }
toml = "*"
treadle = "*"
uuid = { version = "*", features = ["v4"] }
walkdir = "*"
