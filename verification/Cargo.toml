[package]
name = "sentinel_core"
version = "0.1.0"
edition = "2021"
publish = false

[dependencies]
petgraph = "*"
toml = "*"
serde = { version = "1", features = ["derive"] }
thiserror = "*"
anyhow = "1"
clap = { version = "4", features = ["derive"] }
tokio = { version = "1", features = ["rt-multi-thread", "macros", "sync"] }
arrow = { version = "*", default-features = false }
arrow-csv = "*"
async-trait = "*"
inventory = "*"
syn = { version = "2", features = ["full"] }
quote = "1"
proc-macro2 = "1"
heck = "*"
