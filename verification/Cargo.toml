[package]
name = "stepper_lib"
version = "0.1.0"
edition = "2021"
publish = false

[dependencies]
serde_json = "1.0"
jsonpath_lib = "0.2"
serde = { version = "1.0", features = ["derive"] }
log = "0.4"
