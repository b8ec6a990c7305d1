[package]
name = "canary"
version = "0.1.0"
edition = "2021"
publish = false

[dependencies]
indexmap = "=2.14.2"
smallvec = "=1.16.4"
serde = { version = "=1.0.229", features = ["derive"] }
serde_json = "=1.0.154"
cpp_demangle = "=0.5.1"
msvc-demangler = "=0.11.0"
capstone = "*"
