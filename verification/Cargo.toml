[package]
name = "poseidon_parameters"
version = "0.1.0"
edition = "2021"
publish = false

[dependencies]
decaf377 = { version = "0.10", default-features = false }
