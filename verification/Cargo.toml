[package]
name = "irc"
version = "0.1.0"
edition = "2021"
publish = false

[dependencies]
encoding = "*"
tokio = { version = "*", features = ["net", "io-util", "time", "rt", "sync", "macros"] }
tokio-util = { version = "*", features = ["codec"] }
bytes = "*"
futures-util = "*"
tokio-rustls = "*"
rustls-native-certs = "*"
rustls-pemfile = "*"
webpki-roots = "*"
tokio-socks = "*"
