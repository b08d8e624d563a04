[package]
name = "pgrx_array"
version = "0.1.0"
edition = "2021"
publish = false

[dependencies]
bitvec = "1"
once_cell = "1"
serde = "1"
pgrx-pg-sys = { version = "0.8", default-features = false, features = ["pg15"] }
pgrx-sql-entity-graph = "0.8"
