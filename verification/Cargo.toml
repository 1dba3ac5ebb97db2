[package]
name = "studentvue"
version = "0.1.0"
edition = "2021"
publish = false

[dependencies]
reqwest = { version = "=0.13.5", default-features = false, features = ["form"] }
serde = "=1.0.229"
lazy_static = "=1.5.1"
