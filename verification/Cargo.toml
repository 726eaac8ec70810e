[package]
name = "iceberg_core"
version = "0.1.0"
edition = "2021"
publish = false

[dependencies]
uuid = { version = "*", features = ["v4"] }
object_store = "*"
apache-avro = "*"
serde = { version = "*", features = ["derive"] }
serde_json = "*"
futures = "*"
