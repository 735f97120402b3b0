[package]
name = "workspace_labels"
version = "0.1.0"
edition = "2021"
publish = false

[dependencies]
niri-ipc = "=25.2.0"
ctrlc = "=3.5.2"
