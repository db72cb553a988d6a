[package]
name = "rustyface"
version = "0.1.0"
edition = "2021"
publish = false

[dependencies]
clap = { version = "=4.6.7", features = ["derive"] }
fern = { version = "=0.6.2", features = ["colored"] }
futures-util = "=0.3.34"
git2 = { version = "=0.19.0", default-features = false, features = ["https"] }
glob = "=0.3.4"
humantime = "=2.4.0"
indicatif = "=0.17.11"
log = "=0.4.34"
reqwest = { version = "=0.12.28", features = ["stream"] }
sha2 = "=0.10.9"
tokio = { version = "=1.54.1", features = ["macros", "rt-multi-thread", "signal", "sync", "time"] }
