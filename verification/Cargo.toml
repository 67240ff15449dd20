[package]
name = "pbs_usb_backup_helper"
version = "0.1.0"
edition = "2021"
publish = false

[dependencies]
anyhow = "1"
futures-util = "*"
serde = { version = "1", features = ["derive"] }
tokio = { version = "1", features = ["fs", "macros", "rt-multi-thread", "sync", "time"] }
toml = "*"
zbus = "*"
zvariant = "*"
