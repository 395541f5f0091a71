[package]
name = "mlmdquery"
version = "0.1.0"
edition = "2021"
publish = false

[dependencies]
anyhow = "1"
mlmd = "=0.3.0"
palette = "0.6"
serde = { version = "1", features = ["derive"] }
serde_json = "=1.0.154"
structopt = "0.3"
tinytemplate = "=1.2.1"
tokio = { version = "1", features = ["macros", "rt-multi-thread"] }
