[package]
name = "obs_sync"
version = "0.1.0"
edition = "2021"
publish = false

[dependencies]
base64 = "*"
url = "*"
reqwest = { version = "*", default-features = false, features = ["rustls-tls", "cookies"] }
tokio = { version = "*", features = ["rt-multi-thread", "macros", "sync", "time"] }
serde = { version = "*", features = ["derive"] }
serde_json = "*"
clap = { version = "*", features = ["derive"] }
configparser = "*"
xdg = "*"
time = { version = "*", features = ["parsing", "serde", "macros"] }
cookie_store = "*"
reqwest_cookie_store = "*"
ssh-key = "*"
ssh-encoding = "*"
yaserde = "*"
yaserde_derive = "*"
