[package]
name = "buysomeoneacoffee"
version = "0.1.0"
edition = "2021"
publish = false

[dependencies]
candid = "*"
ic-cdk = "*"
ic-stable-structures = "*"
icrc-ledger-types = "*"
serde = { version = "*", features = ["derive"] }
