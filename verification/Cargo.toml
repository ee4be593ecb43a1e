[package]
name = "flowgate"
version = "0.1.0"
edition = "2021"
publish = false

[dependencies]
wildcard_ex = "*"
serde_json = "1"
serde_yml = "*"
openssl = "0.10"
threadpool = "1"
log = "0.4"
colog = "*"
websocket = { version = "0.27", default-features = false, features = ["sync"] }
