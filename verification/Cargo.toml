[package]
name = "oscillot"
version = "0.1.0"
edition = "2021"
publish = false

[dependencies]
dft = "0.5.5"
gdk = "0.18"
gio = "0.18"
gio-sys = "0.18"
gl = "0.14.0"
glib = "0.18"
gtk = "0.18"
jack = "0.13.5"
libc = "0.2.191"
shared_library = "0.1.9"
