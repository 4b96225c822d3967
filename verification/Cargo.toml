[package]
name = "rfmetrics"
version = "0.1.0"
edition = "2021"
publish = false

[dependencies]
eframe = { version = "*", default-features = false, features = ["default_fonts", "glow", "x11", "wayland"] }
egui = "*"
egui_extras = "*"
egui_plot = "*"
flexi_logger = "*"
image = { version = "*", default-features = false, features = ["png"] }
jiff = "*"
log = "0.4"
open = "*"
plotters = { version = "*", default-features = false, features = ["line_series", "point_series", "full_palette"] }
plotters-svg = "*"
regex = "1"
resvg = "*"
rfd = "*"
serde = { version = "1", features = ["derive"] }
serde_json = { version = "1", features = ["preserve_order"] }
wait-timeout = "*"
which = "*"
