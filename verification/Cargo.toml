[package]
name = "http_proxy"
version = "0.1.0"
edition = "2021"
publish = false

[dependencies]
url = "2"
tokio = { version = "1", features = ["rt-multi-thread", "net", "io-util", "macros"] }
native-tls = "0.2"
tokio-native-tls = "0.3"
