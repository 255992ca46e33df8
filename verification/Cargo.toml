[package]
name = "canvas_downloader"
version = "0.1.0"
edition = "2021"
publish = false

[dependencies]
anyhow = "1"
chrono = "0.4"
clap = { version = "4", features = ["derive"] }
filetime = "0.2"
futures = "0.3"
indicatif = "0.17"
parse_link_header = "0.3"
rand = "0.8"
regex = "1"
reqwest = { version = "0.11", default-features = false, features = ["json", "rustls-tls"] }
sanitize-filename = "0.4"
select = "0.6"
serde = { version = "1", features = ["derive"] }
serde_json = "1"
termsize = "0.1"
tokio = { version = "1", features = ["full"] }
