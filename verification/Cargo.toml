[package]
name = "managesieve"
version = "0.1.0"
edition = "2021"
publish = false

[dependencies]
either = "1"
nom = "7"
thiserror = "1"
