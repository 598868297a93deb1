[package]
name = "ledger_shell"
version = "0.1.0"
edition = "2021"
publish = false

[dependencies]
sha2 = "0.10"
rand = "0.8"
hex = "0.4"
bech32 = "0.9"
serde = { version = "1", features = ["derive"] }
serde_json = "1"
toml = "0.5"
