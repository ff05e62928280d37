[package]
name = "weatherbot"
version = "0.1.0"
edition = "2021"
publish = false

[dependencies]
rustc-serialize = "=0.3.25"
hyper = { version = "=1.12.0", features = ["client", "http1"] }
hyper-util = { version = "=0.1.21", features = ["client-legacy", "http1", "tokio"] }
http-body-util = "=0.1.5"
tokio = { version = "=1.53.2", features = ["rt", "net", "io-util", "macros"] }
irc = { version = "=1.1.0", default-features = false }
futures-util = "*"
bytes = "*"
