[package]
name = "fhir_model"
version = "0.1.0"
edition = "2021"
publish = false

[dependencies]
chrono = "0.4"
url = "2"
rustc-serialize = "0.3"
