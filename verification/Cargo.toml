[package]
name = "cbor_typed_arrays"
version = "0.1.0"
edition = "2021"
publish = false

[dependencies]
half = "2"
minicbor = { version = "0.19", features = ["std"] }
