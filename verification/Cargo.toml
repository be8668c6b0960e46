[package]
name = "icmc_gui"
version = "0.1.0"
edition = "2021"
publish = false

[dependencies]
eframe = { version = "=0.36.2", default-features = false, features = ["glow", "default_fonts", "x11"] }
egui = "=0.36.2"
egui_dock = { version = "=0.21.1", features = ["serde"] }
egui_extras = "=0.36.2"
egui_code_editor = ">=0.4.0, <0.4.3"
egui_material_icons = "=0.8.0"
bytemuck = "=1.25.2"
serde = { version = "=1.0.229", features = ["derive"] }
toml = "=1.1.8"
tokio = { version = "=1.54.1", features = ["rt-multi-thread", "time"] }
rfd = { version = "=0.17.2", default-features = false, features = ["xdg-portal"] }
opener = { version = "=0.9.0", features = ["reveal"] }
trash = "=5.2.9"
dirs = "=7.0.0"
