[package]
name = "machine_operator"
version = "0.1.0"
edition = "2021"
publish = false

[dependencies]
alloy-primitives = "=0.8.26"
ark-serialize = "=0.5.0"
async-std = { version = "=1.13.2", features = ["attributes", "tokio1"] }
cid = "=0.11.3"
futures = "=0.3.34"
hex = "=0.4.3"
hyper = { version = "=0.14.32", features = ["full"] }
ipfs-api-backend-hyper = "=0.2.0"
rayon = "=1.12.0"
regex = "=1.13.1"
rs-car-ipfs = "0.4"
serde_json = "=1.0.154"
sha2 = "=0.10.9"
