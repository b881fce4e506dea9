[package]
name = "effectfence"
version = "0.1.7"
edition = "2021"
publish = false

[dependencies]
anyhow = "1"
fips204 = "0.4"
rmcp = { version = "*", features = ["client", "macros", "server", "transport-child-process", "transport-io"] }
schemars = "1"
serde = { version = "1", features = ["derive"] }
serde_json = "1"
sha2 = "*"
thiserror = "2"
tokio = { version = "1", features = ["full"] }
