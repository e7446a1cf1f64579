[package]
name = "clipd"
version = "0.1.0"
edition = "2021"
publish = false

[dependencies]
md-5 = "0.10"
hex = "0.4"
byte-unit = "4"
chrono = "0.4"
gtk = "0.18"
actix-web = "4"
