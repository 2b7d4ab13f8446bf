[package]
name = "vecembed"
version = "0.1.0"
edition = "2021"
publish = false

[dependencies]
tokenizers = { version = "=0.23.2", default-features = false, features = ["onig"] }
uuid = { version = "=1.27.0", features = ["v7"] }
tokio = { version = "*", features = ["rt-multi-thread", "macros", "sync", "time"] }
qdrant-client = "=1.19.0"
async-openai = { version = "=0.42.1", features = ["embedding"] }
sea-orm = { version = "=1.1.20", default-features = false, features = ["sqlx-mysql", "runtime-tokio-rustls", "macros", "with-json"] }
clap = { version = "*", features = ["derive"] }
dotenvy = "*"
futures = "*"
log = "*"
chrono = { version = "*", default-features = false, features = ["clock", "std"] }
serde_json = "*"
thiserror = "*"
