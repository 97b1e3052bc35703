[package]
name = "croncat"
version = "0.1.0"
edition = "2021"
publish = false

[dependencies]
cosmwasm-std = "1.0"
cron_schedule = "0.2"
cw2 = "0.13"
cw20 = "0.13"
cw721 = "0.13"
serde = { version = "1", features = ["derive"] }
serde_json = "1"
