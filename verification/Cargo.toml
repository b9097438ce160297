[package]
name = "evm"
version = "0.1.0"
edition = "2021"
publish = false

[dependencies]
primitive-types = "0.13"
tiny-keccak = { version = "2", features = ["keccak"] }
hex = "0.4"
clap = { version = "4", features = ["derive"] }
