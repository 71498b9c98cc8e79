[package]
name = "backup_util"
version = "0.1.0"
edition = "2021"
publish = false

[dependencies]
rand = "0.8"
tinyjson = "2"
minreq = "2"
zip = { version = "2", default-features = false, features = ["deflate", "aes-crypto"] }
