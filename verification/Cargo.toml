[package]
name = "zinko_agent_core"
version = "0.1.0"
edition = "2021"
publish = false

[dependencies]
anyhow = "1"
chrono = { version = "0.4", features = ["serde"] }
egui_plot = "=0.27.2"
serde = { version = "1", features = ["derive"] }
serde_json = "1"
sysinfo = "=0.30.13"
