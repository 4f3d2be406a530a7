[package]
name = "comp_coin"
version = "0.1.0"
edition = "2021"
publish = false

[dependencies]
anyhow = "1"
axum = "*"
clap = { version = "4", features = ["derive"] }
env_logger = "*"
get_if_addrs = "*"
k256 = "0.13"
log = "0.4"
rand = "0.9"
rand_core = { version = "0.6", features = ["getrandom"] }
reqwest = { version = "*", default-features = false }
serde = { version = "1", features = ["derive"] }
serde_json = "1"
sha2 = "0.10"
tokio = { version = "1", features = ["full"] }
tower-http = { version = "*", features = ["fs"] }
webbrowser = "*"
