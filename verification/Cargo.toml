[package]
name = "poe_core"
version = "0.1.0"
edition = "2021"
publish = false

[dependencies]
cosmwasm-std = "=1.5.11"
cw-storage-plus = "=1.2.0"
cw-utils = "=1.0.3"
cw2 = "=1.1.2"
itertools = "=0.10.5"
schemars = "=0.8.22"
serde = { version = "=1.0.229", features = ["derive"] }
tg-bindings = "=0.17.1"
tg-utils = "=0.17.1"
tg4 = "=0.17.1"
