[package]
name = "attesta"
version = "0.1.0"
edition = "2021"
publish = false

[dependencies]
sha2 = "=0.10.9"
p256 = { version = "=0.13.2", features = ["ecdsa"] }
thiserror = "=1.0.69"
solana-program = "=2.3.0"
anchor-lang = "=0.32.2"

[dev-dependencies]
borsh = "=1.8.1"
