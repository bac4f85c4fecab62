[package]
name = "employees_database"
version = "0.1.0"
edition = "2021"
publish = false

[dependencies]
colored = "*"
comfy-table = "*"
