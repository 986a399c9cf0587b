[package]
name = "egui_field_editor"
version = "0.6.0"
edition = "2021"
publish = false

[dependencies]
egui = "=0.35.0"
egui_dnd = "=0.16.0"
egui_extras = { version = "=0.35.0", features = ["datepicker"] }
jiff = "=0.2.43"
chrono = "=0.4.45"
time = "=0.3.55"
nalgebra-glm = "=0.21.0"
smallvec = "=1.16.5"
arrayvec = "=0.7.8"
syn = { version = "=2.0.119", features = ["full"] }
quote = "=1.0.47"
proc-macro2 = "=1.0.107"
darling = "=0.21.3"
rfd = { version = "*", default-features = false, features = ["xdg-portal", "tokio"] }
