[package]
name = "s2prot_rs"
version = "0.1.0"
edition = "2021"
publish = false

[dependencies]
mpq = "*"
serde_json = "1"

[dev-dependencies]
byteorder = "1"
nom = "7"
