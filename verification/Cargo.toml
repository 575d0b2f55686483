[package]
name = "sol_accounts_plugin"
version = "0.1.0"
edition = "2021"
publish = false

[dependencies]
agave-geyser-plugin-interface = "=2.0.25"
base64 = "=0.23.1"
log = "=0.4.34"
prost = "=0.14.4"
prost-types = "=0.14.4"
