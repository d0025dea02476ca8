[package]
name = "tsukkomi"
version = "0.1.0"
edition = "2021"
publish = false

[dependencies]
anyhow = "=1.0.104"
async-fd-lock = "=0.2.0"
base64 = "=0.22.1"
chrono = { version = "=0.4.45", features = ["serde"] }
clap = { version = "=4.6.7", features = ["derive", "env"] }
dptree = "=0.5.1"
fslock = "=0.2.1"
humantime = "=2.4.0"
infer = "=0.22.0"
rig = { version = "=0.39.0", default-features = false, features = ["memory"] }
serde = { version = "=1.0.229", features = ["derive"] }
serde_json = "=1.0.154"
takecell = "=0.1.1"
teloxide = { version = "=0.17.0", features = ["macros"] }
thiserror = "=2.0.21"
tokio = { version = "=1.54.1", features = ["full"] }
tracing = "=0.1.44"
