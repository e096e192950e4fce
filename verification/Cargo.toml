[package]
name = "navigator"
version = "0.1.0"
edition = "2021"
publish = false

[dependencies]
chrono = { version = "0.4", default-features = false, features = ["clock", "std"] }
users = "0.11"
ncurses = "*"
thiserror = "*"
