[package]
name = "omado"
version = "0.1.0"
edition = "2021"
publish = false

[dependencies]
gtk4 = { version = "0.9", features = ["v4_12"] }
libadwaita = { version = "0.7", features = ["v1_4"] }
ksni = "0.2"
