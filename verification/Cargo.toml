[package]
name = "kylin-desktop-organizer"
version = "0.1.0"
edition = "2021"
publish = false

[dependencies]
dirs = "5"
serde = { version = "1", features = ["derive"] }
serde_json = "1"
log = "0.4"
env_logger = "0.11"
gtk = "0.18"
gio = "0.18"
glib = "0.18"
cairo-rs = "0.18"
gdk-pixbuf = "0.18"
