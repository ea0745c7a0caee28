[package]
name = "heap_analysis"
version = "0.1.0"
edition = "2021"
publish = false

[dependencies]
backtrace = "0.3"
bincode = "1"
crossbeam-channel = "0.5"
differential-dataflow = "=0.25.1"
fnv = "=1.0.7"
futures = "0.3"
lazy_static = "1"
libc = "0.2"
libunwind-sys = "=0.5.1"
pretty_env_logger = "=0.5.0"
retain_mut = "0.1"
serde = { version = "1", features = ["derive"] }
serde_json = "1"
timely = "=0.31.0"
tokio = { version = "1", features = ["full"] }
tokio-stream = "0.1"
uuid = { version = "=1.29.0", features = ["v4"] }
warp = "0.3"
