[package]
name = "maildirs"
version = "0.1.0"
edition = "2021"
publish = false

[dependencies]
gethostname = "0.4"
thiserror = "1"
walkdir = "2"

[dev-dependencies]
tempfile = "3"
