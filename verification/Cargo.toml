[package]
name = "nyse-token-hook"
version = "0.1.0"
edition = "2021"
publish = false

[dependencies]
anchor-lang = "=1.2.1"
anchor-spl = "=1.2.1"
spl-tlv-account-resolution = "=0.11.4"
spl-transfer-hook-interface = "=2.1.0"
spl-type-length-value = "=0.9.1"
