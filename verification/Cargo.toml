[package]
name = "subruster"
version = "0.1.0"
edition = "2021"
publish = false

[dependencies]
regex = "1"
reqwest = { version = "*", default-features = false, features = ["blocking", "rustls-tls"] }
rayon = "*"
chrono = "*"
serde = { version = "1", features = ["derive"] }
serde_json = "1"
tokio = { version = "1", features = ["rt-multi-thread", "macros"] }
futures = "*"
trust-dns-resolver = "*"
