[package]
name = "official_download"
version = "0.1.0"
edition = "2021"
publish = false

[dependencies]
scraper = "*"
serde_json = "*"
reqwest = { version = "*", default-features = false, features = ["json"] }
tokio = { version = "*", features = ["full"] }
handlebars = "*"
serde = { version = "*", features = ["derive"] }
clap = { version = "*", features = ["derive"] }
toml = "*"
log = "*"
flexi_logger = "*"
colored = "*"
color-eyre = "*"
eyre = "*"

[dev-dependencies]
regex = "*"
