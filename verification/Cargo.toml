[package]
name = "photo_sync"
version = "0.1.0"
edition = "2021"
publish = false

[dependencies]
chrono = { version = "0.4", default-features = false, features = ["std"] }
clap = { version = "4", features = ["derive"] }
log = "0.4"
sha256 = { version = "1", default-features = false }
simple_logger = "*"
thiserror = "1"
