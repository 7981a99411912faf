[package]
name = "kernel_core"
version = "0.2.2"
edition = "2021"
publish = false

[dependencies]
scroll = "*"
lz4_flex = "*"
flate2 = "*"
zstd = "*"
object = { version = "*", features = ["write"] }
rayon = "*"
serde = { version = "1", features = ["derive"] }
serde_json = "1"
thiserror = "*"
anyhow = "1"
clap = { version = "4", features = ["derive"] }
console = "*"
indicatif = "*"
tracing = "*"
tracing-subscriber = { version = "*", features = ["env-filter"] }
tempfile = "*"
