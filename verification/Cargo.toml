[package]
name = "solhunt"
version = "0.1.0"
edition = "2021"
publish = false

[dependencies]
itertools = "*"
semver = "*"
clap = { version = "4", features = ["derive"] }
serde = { version = "*", features = ["derive"] }
serde_json = "*"
ethers-solc = "*"
