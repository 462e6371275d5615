[package]
name = "sharkmanager"
version = "0.1.0"
edition = "2021"
publish = false

[dependencies]
chrono = "0.4"
mime_guess = "2"
dirs = "5"
trash = "5"
open = "5"
gtk4 = { version = "0.9", features = ["v4_12"] }
libadwaita = "0.7"
gdk-pixbuf = "0.20"
pango = "0.20"
