[package]
name = "hyprland_per_window_layout"
version = "0.1.0"
edition = "2021"
publish = false

[dependencies]
dirs = "*"
env_logger = "*"
log = "*"
nix = { version = "*", features = ["socket"] }
serde_json = "*"
toml = "*"
