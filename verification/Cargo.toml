[package]
name = "pact_matching"
version = "0.1.0"
edition = "2021"
publish = false

[dependencies]
serde_json = "=1.0.151"
onig = { version = "=6.5.3", default-features = false }
pact_models = "=1.3.15"
difference = "=2.0.0"
ansi_term = "=0.12.1"
sxd-document = "*"
