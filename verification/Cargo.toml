[package]
name = "xray_tester"
version = "0.1.0"
edition = "2021"
publish = false

[dependencies]
anyhow = "1"
bytes = "1"
clap = { version = "4", features = ["derive"] }
clap_complete = "4"
futures = "0.3"
http-body-util = "0.1"
hyper = { version = "1", features = ["client", "http1"] }
hyper-util = { version = "0.1", features = ["tokio"] }
native-tls = "0.2"
tokio = { version = "1", features = ["full"] }
tokio-native-tls = "0.3"
url = "2"
