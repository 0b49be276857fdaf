[package]
name = "inex_git"
version = "0.1.0"
edition = "2021"
publish = false

[dependencies]
sha1 = "0.10"
sha2 = "0.10"
unicode-normalization = "0.1"
thiserror = "2"
uuid = { version = "1", features = ["v4"] }
zeroize = "1"
