[package]
name = "smithy_routing"
version = "0.1.0"
edition = "2021"
publish = false

[dependencies]
http = "0.2"
url = "2"
tower-http = { version = "0.3", features = ["add-extension"] }
