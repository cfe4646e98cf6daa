[package]
name = "ovenrack"
version = "0.1.0"
edition = "2021"
publish = false

[dependencies]
rand = "*"
clap = { version = "*", features = ["cargo"] }
log = "*"
simplelog = "*"
retry = "*"
rustls = { version = "*", default-features = false, features = ["ring", "logging", "std", "tls12"] }
webpki-roots = "*"
reqwest = { version = "*", default-features = false, features = ["blocking", "rustls-tls"] }
