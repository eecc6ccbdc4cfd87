[package]
name = "anonify"
version = "0.1.0"
edition = "2021"
publish = false

[dependencies]
anyhow = "=1.0.104"
base64 = "=0.13.1"
clap = "=2.34.0"
dirs = "=7.0.0"
env_logger = "=0.11.11"
hex = "=0.4.3"
http_req = "=0.7.2"
log = "=0.4.34"
openssl = "=0.10.81"
parking_lot = "=0.12.5"
reqwest = { version = "=0.11.27", default-features = false, features = ["blocking", "json"] }
rustls = "=0.19.1"
serde = { version = "=1.0.229", features = ["derive"] }
serde_json = "=1.0.154"
sgx_types = "=1.1.1"
sgx_urts = "=1.1.1"
web3 = { version = "=0.19.0", default-features = false }
webpki = "=0.21.4"
