[package]
name = "fvm_core"
version = "0.1.0"
edition = "2021"
publish = false

[dependencies]
cid = "=0.11.3"
sha2 = "=0.11.0"
fvm_shared = "=4.8.3"
fvm_ipld_blockstore = "=0.3.2"
fvm_ipld_encoding = "=0.5.4"
fvm_sdk = "=4.8.3"
fvm-wasm-instrument = "=0.4.0"
serde = { version = "=1.0.229", features = ["derive"] }
anyhow = "=1.0.104"
thiserror = "=2.0.21"
multihash-derive = "=0.9.3"
