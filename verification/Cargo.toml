[package]
name = "huaga"
version = "0.1.0"
edition = "2021"
publish = false

[dependencies]
gdk = "0.18"
gdk-pixbuf = "0.18"
glib = "0.18"
gtk = "0.18"
