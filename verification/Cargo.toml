[package]
name = "poker"
version = "0.1.0"
edition = "2021"
publish = false

[dependencies]
rand = { version = "=0.8.8", features = ["small_rng"] }
smallvec = "=1.16.4"
rs_poker = { version = "=4.1.0", default-features = false }
serde = { version = "=1.0.229", features = ["derive"] }
rmp-serde = "=1.3.1"
thiserror = "=1.0.69"
clap = { version = "=4.6.7", features = ["derive"] }
tokio = { version = "=1.54.1", features = ["rt", "rt-multi-thread", "net", "io-util", "sync", "macros", "time"] }
tracing = "=0.1.44"
eframe = { version = "=0.31.1", default-features = false, features = ["glow", "x11"] }
egui = { version = "=0.31.1", default-features = false }
