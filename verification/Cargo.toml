[package]
name = "labrador"
version = "0.1.0"
edition = "2021"
publish = false

[dependencies]
ark-ff = "=0.4.2"
ark-std = "=0.4.0"
derive_more = { version = "=1.0.0", features = ["display"] }
log = "=0.4.35"
nimue = "=0.1.1"
num-bigint = "=0.4.8"
num-traits = "=0.2.19"
rayon = "=1.12.0"
serde = { version = "=1.0.229", features = ["derive"] }
tracing = "=0.1.44"
tracing-subscriber = "=0.3.23"
