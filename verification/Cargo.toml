[package]
name = "ark-bpr20"
version = "0.1.0"
edition = "2021"
publish = false

[dependencies]
ark-bls12-381 = "=0.6.0"
ark-crypto-primitives = { version = "=0.6.0", features = ["snark", "crh", "constraints"] }
ark-ec = "=0.6.0"
ark-ff = "=0.6.0"
ark-poly = "=0.6.0"
ark-relations = "=0.6.0"
ark-serialize = "=0.6.0"
ark-std = "=0.6.0"
blake2 = "=0.11.0"

[dev-dependencies]
ark-r1cs-std = "=0.6.0"
sha2 = "=0.10.9"
