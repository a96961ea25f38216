[package]
name = "score_panel"
version = "0.1.0"
edition = "2021"
publish = false

[dependencies]
twilight-model = "*"
cqrs-es = "*"
sea-orm = { version = "*", default-features = false, features = ["macros"] }
async-trait = "*"
anyhow = "*"
serde = { version = "*", features = ["derive"] }
tokio = { version = "*", features = ["rt", "macros"] }
