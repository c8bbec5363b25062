[package]
name = "dip721_ledger"
version = "0.1.0"
edition = "2021"
publish = false

[dependencies]
candid = "=0.10.37"
dip721-rs = "=0.2.1"
ic-cdk = "=0.17.2"
num-bigint = "=0.4.8"
serde = { version = "=1.0.229", features = ["derive"] }
serde_json = "=1.0.151"
serde_bytes = "=0.11.19"
