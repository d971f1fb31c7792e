[package]
name = "crate2nix"
version = "0.1.0"
edition = "2021"
publish = false

[dependencies]
anyhow = "1"
cargo-platform = "*"
cargo_metadata = "*"
cargo_toml = "*"
hex = "0.4"
nix-base32 = "*"
pathdiff = "0.2"
semver = { version = "1", features = ["serde"] }
serde = { version = "1", features = ["derive"] }
serde_json = "1"
structopt = "0.3"
tera = { version = "1", default-features = false }
toml = "*"
url = { version = "2", features = ["serde"] }
