[package]
name = "barrique"
version = "0.1.0"
edition = "2021"
publish = false

[dependencies]
lz4_flex = { version = "=0.14.0", default-features = false, features = ["std", "safe-encode", "safe-decode", "checked-decode"] }
twox-hash = { version = "=2.1.5", default-features = false, features = ["xxhash64"] }
thiserror = "=2.0.21"
darling = "0.23"
syn = { version = "2", features = ["full"] }
quote = "=1.0.47"
proc-macro2 = "=1.0.107"
