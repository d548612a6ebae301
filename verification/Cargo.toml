[package]
name = "pdf_image_core"
version = "0.1.0"
edition = "2021"
publish = false

[dependencies]
lopdf = "*"
serde = { version = "*", features = ["derive"] }
console_error_panic_hook = "*"
