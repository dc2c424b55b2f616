[package]
name = "goober_bot"
version = "0.1.0"
edition = "2021"
publish = false

[dependencies]
chrono = "=0.4.45"
serde = { version = "=1.0.229", features = ["derive"] }
postcard = { version = "=1.1.3", features = ["use-std"] }
sled = "=0.34.7"
poise = "=0.7.1"
poise_error = "=1.8.1"
topgg = { version = "=1.4.2", features = ["autoposter", "serenity"] }
charts-rs = { version = "=2.3.0", features = ["png"] }
