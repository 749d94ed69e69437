[package]
name = "rs_linkfusion"
version = "0.1.0"
edition = "2021"
publish = false

[dependencies]
aggligator = "=0.9.12"
aggligator-transport-tcp = { version = "=0.2.5", default-features = false }
anyhow = "=1.0.104"
chacha20poly1305 = "=0.10.1"
clap = { version = "=4.6.7", default-features = false, features = ["std", "help", "usage", "error-context", "suggestions", "derive", "env"] }
eframe = { version = "=0.33.3", default-features = false, features = ["default_fonts", "glow", "x11"] }
egui = { version = "=0.33.3", default-features = false }
flate2 = "=1.1.10"
rand = "=0.8.8"
serde = { version = "=1.0.229", features = ["derive"] }
simple-dns = "=0.13.0"
tokio = { version = "=1.54.1", features = ["io-util", "macros", "net", "rt-multi-thread", "sync", "time"] }
toml = { version = "=0.8.23", default-features = false, features = ["parse"] }
tracing = "=0.1.44"
tracing-subscriber = { version = "=0.3.23", default-features = false, features = ["ansi", "fmt", "tracing-log"] }
tun-rs = { version = "=2.8.16", default-features = false, features = ["async_tokio"] }
