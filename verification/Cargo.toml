[package]
name = "quasar_vaults"
version = "0.1.0"
edition = "2021"
publish = false

[dependencies]
cosmwasm-std = "1.5"
cosmwasm-schema = "1.5"
cw-storage-plus = "1.2"
cw-utils = "1.0"
cw2 = "1.1"
cw20 = "1.1"
cw20-base = { version = "1.1", features = ["library"] }
cw-controllers = "1.1"
cw-asset = "3"
osmosis-std = "0.22"
thiserror = "1"
num_enum = "0.7"
