[package]
name = "zestors"
version = "0.1.0"
edition = "2021"
publish = false

[dependencies]
bytes = "=1.12.1"
rustls-webpki = { version = "=0.103.16", default-features = false, features = ["alloc"] }
rustls-pki-types = "=1.15.1"
tokio = { version = "=1.54.1", features = ["sync", "rt", "time", "macros", "io-util"] }
tokio-util = { version = "=0.7.20", features = ["time"] }
foca = { version = "=2.0.0", features = ["postcard-codec", "std"] }
serde = { version = "=1.0.229", features = ["derive"] }
postcard = { version = "=1.1.3", features = ["alloc"] }
rand = "=0.10.3"
thiserror = "=2.0.21"
