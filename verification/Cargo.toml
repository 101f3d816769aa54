[package]
name = "wired"
version = "0.1.0"
edition = "2021"
publish = false

[dependencies]
chrono = "0.4"
serde = { version = "1", features = ["derive"] }
serde_json = "1"
ron = "0.6"
notify = "4"
xdg = "2"
getopts = "0.2"
dbus = "0.9"
dbus-crossroads = "0.5"
image = "0.23"
winit = { version = "0.26", default-features = false, features = ["x11"] }
x11 = { version = "2", features = ["xlib", "xss"] }
cairo-rs = { version = "0.15", features = ["xlib"] }
cairo-sys-rs = { version = "0.15", features = ["xlib"] }
pango = "0.15"
pangocairo = "0.15"
