[package]
name = "kessel"
version = "0.1.0"
edition = "2021"
publish = false

[dependencies]
atty = "0.2"
candle-core = "*"
candle-nn = "*"
jni = { version = "0.21", default-features = false }
memmap2 = "0.9"
parking_lot = "0.12"
rand = "0.8"
serde = { version = "1", features = ["derive"] }
serde_json = "1"
softbuffer = { version = "0.4", default-features = false, features = ["x11", "x11-dlopen"] }
tracing = "0.1"
tracing-subscriber = { version = "0.3", features = ["env-filter"] }
winit = { version = "0.30", default-features = false, features = ["rwh_06", "x11"] }
