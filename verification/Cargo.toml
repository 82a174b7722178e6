[package]
name = "webbrowser_plugin"
version = "0.1.0"
edition = "2021"
publish = false

[dependencies]
chromiumoxide = { version = "*", features = ["tokio-runtime"] }
futures = "0.3"
libc = "0.2"
scraper = "*"
serde = { version = "1", features = ["derive"] }
serde_json = "1"
sicompass-pdk = "*"
sicompass-sdk = "*"
tokio = { version = "1", features = ["full"] }
which = "*"
