[package]
name = "docsync"
version = "0.1.0"
edition = "2021"
publish = false

[dependencies]
libp2p = { version = "=0.57.0", features = ["tokio", "tcp", "noise", "yamux", "mdns", "macros"] }
libp2p-stream = "=0.5.0-alpha"
sqlite = "=0.37.4"
tokio = { version = "=1.53.2", features = ["rt-multi-thread", "sync", "io-util", "io-std", "macros", "time"] }
uuid = { version = "=1.27.0", features = ["v4"] }
