[package]
name = "zkwasm"
version = "0.1.0"
edition = "2021"
publish = false

[dependencies]
anyhow = "*"
ark-std = "*"
halo2_proofs = "*"
lazy_static = "*"
log = "*"
num-bigint = "*"
rayon = "*"
serde = { version = "*", features = ["derive"] }
serde_json = "*"
wasmi = "*"
