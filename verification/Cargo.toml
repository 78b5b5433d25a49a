[package]
name = "schema2nix"
version = "0.1.0"
edition = "2021"
publish = false

[dependencies]
nixpkgs-fmt = "*"
serde_yaml = "*"
