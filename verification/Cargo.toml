[package]
name = "ios_rs"
version = "0.1.0"
edition = "2021"
publish = false

[dependencies]
anyhow = "1"
chacha20poly1305 = "0.10"
clap = { version = "4", features = ["derive"] }
ed25519-dalek = { version = "2", features = ["rand_core"] }
hkdf = "0.12"
plist = "1"
rand = "0.8"
rsa = "0.9"
rustls = { version = "0.23", default-features = false, features = ["ring", "std", "tls12"] }
rustls-pemfile = "2"
serde = { version = "1", features = ["derive"] }
serde_bytes = "0.11"
serde_json = "1"
sha1 = { version = "0.10", features = ["oid"] }
sha2 = "0.10"
smoltcp = "0.11"
srp = "0.6"
thiserror = "1"
x25519-dalek = "2"
