[package]
name = "cddlc-validate"
version = "0.1.0"
edition = "2021"
publish = false

[dependencies]
base64 = "0.22"
ciborium = "0.2"
regex = "1"
serde_json = "1"
