[package]
name = "neutron"
version = "0.1.0"
edition = "2021"
publish = false

[dependencies]
ff = "0.13"
halo2curves = { version = "0.9", features = ["bits", "derive_serde"] }
rand_core = { version = "0.6", features = ["getrandom"] }
rayon = "1"
serde = { version = "1", features = ["derive"] }
ark-bn254 = "0.5"
ark-ff = "0.5"
ark-serialize = "0.5"
ark-relations = "0.5"
ark-r1cs-std = "0.5"
ark-crypto-primitives = { version = "0.5", features = ["crh", "r1cs"] }

[dev-dependencies]
rand = "0.8"
