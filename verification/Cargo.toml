[package]
name = "strict_types"
version = "0.1.0"
edition = "2021"
publish = false

[dependencies]
sha2 = "0.10"
blake3 = "1"
base85 = "2"
baid64 = "*"
baid58 = "*"
mnemonic = "1"
amplify = "4"
strict_encoding = "2"
