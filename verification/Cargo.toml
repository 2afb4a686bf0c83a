[package]
name = "r2rcon"
version = "0.1.0"
edition = "2021"
publish = false

[dependencies]
log = "0.4"
parking_lot = "0.12"
retour = "*"
rrplug = "*"
thiserror = "*"
windows-sys = { version = "*", features = ["Win32_Foundation", "Win32_System_LibraryLoader"] }
