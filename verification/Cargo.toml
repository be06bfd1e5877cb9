[package]
name = "nbt_rust"
version = "0.1.1"
edition = "2021"
publish = false

[dependencies]
byteorder = "1"
indexmap = "2"
serde = { version = "1", features = ["derive"] }
serde-value = "0.7"
thiserror = "1"
