[package]
name = "most_important_deps"
version = "0.1.0"
edition = "2021"
publish = false

[dependencies]
select = "=0.6.1"
anyhow = "*"
log = "*"
env_logger = "*"
reqwest = { version = "*", default-features = false }
reqwest-middleware = "=0.5.2"
reqwest-retry = "=0.9.1"
tokio = { version = "*", features = ["macros", "rt-multi-thread", "fs", "io-util", "sync", "time"] }
wg = { version = "=1.1.0", features = ["future"] }
