[package]
name = "perpetual_tables"
version = "0.1.0"
edition = "2021"
publish = false

[dependencies]
async-graphql = "6.0"
bcs = "0.1"
move-core-types = "*"
once_cell = "1"
rocksdb = "0.21"
serde = { version = "1", features = ["derive"] }
tracing = "0.1"
