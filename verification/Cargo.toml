[package]
name = "goose_routes"
version = "0.1.0"
edition = "2021"
publish = false

[dependencies]
axum = "=0.8.9"

[dev-dependencies]
tokio = { version = "*", features = ["rt"] }
tower = { version = "*", features = ["util"] }
