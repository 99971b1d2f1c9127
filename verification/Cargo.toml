[package]
name = "neurons_agent"
version = "0.5.0"
edition = "2021"
publish = false

[dependencies]
serde = { version = "1", features = ["derive"] }
serde_json = "1"
md5 = "0.7"
rust-ini = "0.21"
clap = "2"
log = "0.4"
log4rs = { version = "1", default-features = false, features = ["file_appender", "pattern_encoder"] }
lazy_static = "1"
job_scheduler = "1"
sled = "0.34"
reqwest = { version = "0.11", default-features = false, features = ["blocking", "json"] }
nix = { version = "0.26", default-features = false, features = ["process"] }
subprocess = "0.2"
notify = "4"
redis = { version = "0.23", default-features = false }
iron = "0.6"
router = "0.6"
rustc-serialize = "0.3"
timer = "0.2"
chrono = "0.4"
