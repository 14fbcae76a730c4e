[package]
name = "nth_power"
version = "0.1.0"
edition = "2021"
publish = false

[dependencies]
halo2_proofs = "0.2.0"
ff = "0.12"
rand = "0.8"
