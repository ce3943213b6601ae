[package]
name = "map_contract"
version = "0.1.0"
edition = "2021"
publish = false

[dependencies]
pasta_curves = "*"
halo2_gadgets = "*"

[dev-dependencies]
darkfi-serial = "*"
