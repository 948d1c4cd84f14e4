[package]
name = "wire_envelope"
version = "0.1.0"
edition = "2021"
publish = false

[dev-dependencies]
prost = "*"
bytes = "*"
