[package]
name = "name_table"
version = "0.1.0"
edition = "2021"
publish = false

[dependencies]
rkyv = "=0.8.18"
thiserror = "=2.0.21"
