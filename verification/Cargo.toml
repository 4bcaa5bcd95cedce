[package]
name = "fuchsia_logic"
version = "0.1.0"
edition = "2021"
publish = false

[dependencies]
anyhow = "1"
async-trait = "0.1"
futures = "0.3"
lazy_static = "1"
log = "0.4"
memchr = "2"
parking_lot = "0.11"
serde = { version = "1", features = ["derive"] }
thiserror = "1"
void = "1"
zerocopy = "0.6"
