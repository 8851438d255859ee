[package]
name = "whole_sum_boi_discord"
version = "0.1.0"
edition = "2021"
publish = false

[dependencies]
anyhow = "1"
async-trait = "0.1"
config = "*"
log = "0.4"
rumqttc = "*"
serde = { version = "1", features = ["derive"] }
serde_json = "1"
serenity = "0.11"
simplelog = "*"
structopt = "0.3"
tokio = { version = "1", features = ["macros", "rt-multi-thread", "sync"] }
