[package]
name = "gliff"
version = "0.1.0"
edition = "2021"
publish = false

[dependencies]
anyhow = "1"
bytes = "1"
chacha20poly1305 = "0.10"
clap = { version = "4", features = ["derive"] }
futures-util = "0.3"
minicbor = { version = "2", features = ["derive", "std"] }
openh264 = "*"
postcard = { version = "1", features = ["use-std"] }
png = "*"
rand = "0.9"
rayon = "1"
serde = { version = "1", features = ["derive"] }
socket2 = "*"
thiserror = "2"
tokio = { version = "1", features = ["rt", "net", "time", "io-util", "io-std", "sync", "macros", "fs"] }
tracing = "0.1"
tracing-subscriber = { version = "0.3", features = ["env-filter"] }
zbus = { version = "5", default-features = false, features = ["tokio"] }
