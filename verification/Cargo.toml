[package]
name = "merkle_rpc"
version = "0.1.0"
edition = "2021"
publish = false

[dependencies]
jsonrpc-core = "=15.1.0"
jsonrpc-derive = "=15.1.0"
sp-api = "*"
sp-blockchain = "*"
sp-runtime = "*"
