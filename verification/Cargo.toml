[package]
name = "dune"
version = "0.1.0"
edition = "2021"
publish = false

[dependencies]
minijinja = { version = "2", features = ["loader"] }
regex = "1"
toml = "0.8"
serde = { version = "1", features = ["derive"] }
ipnetwork = "0.20"
clap = { version = "4", features = ["derive"] }
rtnetlink = "0.14"
netlink-packet-route = "0.19"
netns-rs = "0.1"
nix = { version = "0.27", features = ["fs"] }
core_affinity = "0.8"
tokio = { version = "1", features = ["rt"] }
futures = "0.3"
tracing = "0.1"
tracing-appender = "0.2"
tracing-subscriber = "0.3"
