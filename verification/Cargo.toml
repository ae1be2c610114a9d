[package]
name = "font_resolver"
version = "0.1.0"
edition = "2021"
publish = false

[dependencies]
brotli = "*"
sha2 = "*"
chrono = "*"
lru = "*"
serde = { version = "*", features = ["derive"] }
serde_json = "*"
bincode = "1"
toml = "*"
reqwest = { version = "*", default-features = false, features = ["json"] }
tokio = { version = "*", features = ["rt-multi-thread", "time", "fs", "macros"] }
futures-util = "*"
async-trait = "*"
walkdir = "*"
ttf-parser = "*"
dirs = "*"
directories = "*"
dialoguer = "*"
indicatif = "*"
