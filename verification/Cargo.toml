[package]
name = "rlua_serde"
version = "0.4.0"
edition = "2021"
publish = false

[dependencies]
rlua = "0.19"
serde = "1"
