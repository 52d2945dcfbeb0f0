[package]
name = "bip321"
version = "0.1.0"
edition = "2021"
publish = false

[dependencies]
bitcoin = "0.32"
urlencoding = "2.1"
bech32 = "0.11"
url = "2"
thiserror = "2"
clap = { version = "4", features = ["derive"] }
