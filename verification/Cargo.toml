[package]
name = "felix_core"
version = "0.1.0"
edition = "2021"
publish = false

[dependencies]
natord = "*"
chrono = "*"
walkdir = "*"
termion = "*"
fs_extra = "*"
