[package]
name = "zk_circuits"
version = "0.1.0"
edition = "2021"
publish = false

[dependencies]
ark-ff = "0.4"
ark-ec = "0.4"
sha3 = "0.10"

[dev-dependencies]
ark-test-curves = { version = "0.4", features = ["bls12_381_curve"] }
