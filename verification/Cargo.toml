[package]
name = "serf-proto"
version = "0.1.0"
edition = "2021"
publish = false

[dependencies]
bytes = "1"
memberlist-proto = "*"
buffa = "*"
rand = "*"
regex = "1"
smol_str = "*"
thiserror = "2"
derive_more = { version = "*", features = ["is_variant", "display"] }
serde = { version = "1", features = ["derive"] }
