[package]
name = "cce_remote"
version = "0.1.0"
edition = "2021"
publish = false

[dependencies]
jpeg-encoder = "0.6"
memmap2 = "0.9"
rustix = { version = "0.38", features = ["event"] }
tungstenite = "0.21"
wayland-client = "0.31"
wayland-protocols-wlr = { version = "0.3", features = ["client"] }
