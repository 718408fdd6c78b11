[package]
name = "pi_flex_layout"
version = "0.1.0"
edition = "2021"
publish = false

[dependencies]
pi_dirty = "=0.1.0"
pi_heap = "=0.1.0"
pi_null = "=0.2.2"
pi_slotmap = "=0.5.0"
pi_slotmap_tree = "=0.3.16"
bitflags = "=2.13.2"
serde = { version = "=1.0.229", features = ["derive"] }
