[package]
name = "torustiq"
version = "0.1.0"
edition = "2021"
publish = false

[dependencies]
actix-web = { version = "4", default-features = false, features = ["macros"] }
futures = "0.3"
log = "0.4"
metrics = "*"
metrics-exporter-prometheus = { version = "*", default-features = false, features = ["http-listener"] }
mlua = { version = "0.9", features = ["lua54", "vendored"] }
once_cell = "1"
pyo3 = { version = "0.22", features = ["auto-initialize"] }
rdkafka = "*"
tokio = { version = "1", features = ["rt", "signal"] }
