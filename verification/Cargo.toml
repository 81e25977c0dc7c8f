[package]
name = "bson_codec"
version = "0.1.0"
edition = "2021"
publish = false

[dependencies]
bytes = "*"
itoa = "*"
memchr = "*"
simdutf8 = "*"
bumpalo = { version = "*", features = ["collections"] }
serde = "*"
thiserror = "*"
