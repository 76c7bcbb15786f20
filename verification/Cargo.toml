[package]
name = "secondary_market"
version = "0.1.0"
edition = "2021"
publish = false

[dependencies]
parity-codec = "=3.5.4"
blake2-rfc = "0.2"
