[package]
name = "ballista_map_partition"
version = "0.1.0"
edition = "2021"
publish = false

[dependencies]
arrow = { version = "=57.3.2", features = ["ffi"] }
async-trait = "0.1"
axum = "0.8"
ballista-core = { version = "=52.0.0", default-features = false }
datafusion = { version = "=52.5.0", default-features = false }
datafusion-physical-optimizer = "=52.5.0"
datafusion-proto = { version = "=52.5.0", default-features = false }
futures-util = "0.3"
libloading = "0.8"
once_cell = "1"
paste = "1"
prost = "=0.14.4"
serde = { version = "1", features = ["derive"] }
sysinfo = "0.33"
tokio = { version = "1", features = ["net", "rt", "rt-multi-thread", "sync", "time"] }
tower-http = { version = "0.6", features = ["cors"] }
