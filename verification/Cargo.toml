[package]
name = "sapling"
version = "0.1.0"
edition = "2021"
publish = false

[dependencies]
percent-encoding = "2"
md5 = "*"
png = "*"
url = "2"
anyhow = "1"
axum = "0.8"
clap = { version = "4", features = ["derive"] }
leptos = "*"
serde = { version = "1", features = ["derive"] }
tokio = { version = "1", features = ["macros", "rt-multi-thread", "net"] }
tower-http = { version = "*", features = ["fs"] }
