[package]
name = "mdbook_plugins"
version = "0.1.0"
edition = "2021"
publish = false

[dependencies]
pulldown-cmark = "=0.13.6"
regex = "=1.13.1"
emojis = "=0.9.1"
sha2 = "=0.11.1"
mdbook-preprocessor = "=0.5.4"
mdbook-renderer = "=0.5.4"
mdbook-core = "=0.5.4"
serde_json = "=1.0.154"
anyhow = "=1.0.104"
toml = "=1.1.8"
semver = "=1.0.28"
log = "=0.4.35"
env_logger = "=0.11.11"
uuid = { version = "=1.29.0", features = ["v4"] }
base64 = "=0.23.1"
flate2 = "=1.1.10"
scraper = "=0.29.0"
svgbob = "=0.7.6"
lopdf = "*"
