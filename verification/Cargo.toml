[package]
name = "zebra_tze"
version = "0.1.0"
edition = "2021"
publish = false

[dependencies]
serde_json = "*"
thiserror = "*"
tracing = "*"
cairo-air = "*"
stwo-cairo-prover = "*"
