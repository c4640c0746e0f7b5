[package]
name = "google-ddns"
version = "0.1.0"
edition = "2021"
publish = false

[dependencies]
base64 = "=0.22.1"
rsa = { version = "=0.9.10", features = ["sha2"] }
sha2 = { version = "=0.10.9", features = ["oid"] }
rand_core = "=0.6.4"
miniserde = "=0.1.46"
ureq = { version = "=3.5.1", features = ["native-tls"] }
log = "=0.4.35"
env_logger = "=0.11.11"
