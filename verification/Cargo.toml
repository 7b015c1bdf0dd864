[package]
name = "sidevm-probing"
version = "0.1.0"
edition = "2021"
publish = false

[dependencies]
hex = "=0.4.3"
rand = "=0.8.8"
parity-scale-codec = "=3.7.5"
anyhow = "=1.0.104"
log = "=0.4.34"
serde = { version = "=1.0.229", features = ["derive"] }
serde_json = "=1.0.154"
tokio = { version = "=1.54.1", features = ["sync", "macros"] }
hyper = { version = "=0.14.32", features = ["client", "server", "http1", "stream"] }
routerify = "=3.0.0"
sidevm = "=0.1.10"
pink-extension = "=0.5.1"
syn = { version = "1", features = ["full"] }
quote = "1"
proc-macro2 = "1"
