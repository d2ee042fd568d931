[package]
name = "nexus_th"
version = "0.1.0"
edition = "2021"
publish = false

[dependencies]
chrono = { version = "=0.4.45", default-features = false, features = ["std"] }
embedded-svc = "0.28"
enumset = "=1.1.15"
esp-idf-hal = "0.44"
esp-idf-svc = "0.49"
log = "=0.4.34"
toml-cfg = "=0.2.0"
