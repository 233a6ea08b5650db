[package]
name = "rustdds"
version = "0.11.0"
edition = "2021"
publish = false

[dependencies]
bit-vec = "=0.8.0"
bytes = "=1.12.1"
chrono = "=0.4.45"
enumflags2 = "=0.7.12"
futures = "=0.3.34"
log = "=0.4.35"
mio = "=0.6.23"
mio-extras = "=2.0.6"
netdev = "0.38"
nix = { version = "=0.29.0", features = ["net", "socket", "uio"] }
serde = { version = "=1.0.229", features = ["derive"] }
socket2 = { version = "=0.5.10", features = ["all"] }
