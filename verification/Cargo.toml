[package]
name = "deep_fri"
version = "0.1.0"
edition = "2021"
publish = false

[dependencies]
ark-pallas = "0.5"
ark-bls12-381 = "0.5"
ark-ff = "0.5"
ark-poly = "0.5"
ark-serialize = "0.5"
blake3 = "1"
rand = "=0.8.5"
serde = { version = "1", features = ["derive"] }
