[package]
name = "ritm_device_tree"
version = "0.1.0"
edition = "2021"
publish = false

[dependencies]
indexmap = { version = "2", default-features = false }
twox-hash = { version = "2", default-features = false, features = ["xxhash64"] }
zerocopy = { version = "0.8", default-features = false }
