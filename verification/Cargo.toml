[package]
name = "sn0int-registry"
version = "0.1.0"
edition = "2021"
publish = false

[dependencies]
diesel = { version = "1.4", features = ["postgres"] }
diesel_full_text_search = "1.0"
serde = { version = "1.0", features = ["derive"] }
