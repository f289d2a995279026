[package]
name = "sysmon"
version = "0.1.0"
edition = "2021"
publish = false

[dependencies]
egui = "0.28"
egui_plot = "0.28"
nvml-wrapper = "0.10"
serde = { version = "1", features = ["derive"] }
serde_json = "1"
