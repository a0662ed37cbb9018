[package]
name = "codelauf"
version = "0.1.0"
edition = "2021"
publish = false

[dependencies]
chrono = { version = "0.4", default-features = false, features = ["alloc"] }
clap = "2"
encoding = "0.2"
env_logger = "0.10"
git2 = { version = "0.19", default-features = false }
log = "0.4"
rs-es = "0.12"
rusqlite = { version = "*", features = ["bundled"] }
schemamama = "0.3"
schemamama_rusqlite = "*"
serde = { version = "1", features = ["derive"] }
sha1 = "0.6"
time = "0.1"
toml = "0.8"
url = "2"
