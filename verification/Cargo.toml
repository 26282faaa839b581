[package]
name = "volarc"
version = "0.1.0"
edition = "2021"
publish = false

[dependencies]
scraper = "*"
htmlescape = "*"
serde_json = "*"
regex = "*"
url = "*"
reqwest = { version = "*", default-features = false, features = ["rustls-tls"] }
tokio = { version = "*", features = ["macros", "rt-multi-thread"] }
futures = "*"
clap = { version = "*", features = ["derive"] }
indicatif = "*"
tempfile = "*"
fs_extra = "*"
