[package]
name = "netlabs"
version = "0.1.0"
edition = "2021"
publish = false

[dependencies]
anyhow = "=1.0.104"
base64 = "=0.23.1"
chrono = { version = "=0.4.45", features = ["serde"] }
clap = { version = "=4.6.7", features = ["derive"] }
dns-lookup = "*"
getifaddrs = "=0.6.2"
httparse = "=1.10.1"
httpdate = "=1.0.3"
rand = "=0.10.3"
rustls = { version = "0.23", default-features = false, features = ["ring", "std", "tls12"] }
serde = { version = "=1.0.229", features = ["derive"] }
socket2 = { version = "=0.6.5", features = ["all"] }
tokio = { version = "=1.54.1", features = ["full"] }
toml = "=1.1.8"
uuid = { version = "=1.29.0", features = ["v4"] }
webpki-roots = "*"
