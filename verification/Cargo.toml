[package]
name = "nft_pallet"
version = "0.1.0"
edition = "2021"
publish = false

[dependencies]
sp-io = "=48.0.0"
