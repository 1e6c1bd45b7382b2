[package]
name = "lazymcp"
version = "0.1.0"
edition = "2021"
publish = false

[dependencies]
rmcp = { version = "*", features = ["server", "transport-io"] }
serde = { version = "1", features = ["derive"] }
serde_json = "1"
schemars = "1"
tokio = { version = "1", features = ["macros", "rt-multi-thread", "io-std"] }
syn = { version = "2", features = ["full"] }
quote = "1"
proc-macro2 = "1"
