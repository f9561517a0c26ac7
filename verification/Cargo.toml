[package]
name = "taskmd-core"
version = "0.1.0"
edition = "2021"
publish = false

[dependencies]
sha2 = "0.10"
gethostname = "*"
chrono = "0.4"
gix = "*"

[dev-dependencies]
tempfile = "3"
