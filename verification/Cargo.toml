[package]
name = "zkmemory"
version = "0.1.0"
edition = "2021"
publish = false

[dependencies]
ff = "=0.13.1"
halo2_proofs = "=0.3.5"

[dev-dependencies]
halo2_gadgets = "=0.5.0"
