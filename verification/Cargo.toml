[package]
name = "cargo_quality"
version = "0.1.0"
edition = "2021"
publish = false

[dependencies]
syn = { version = "=2.0.119", features = ["full", "visit", "visit-mut"] }
proc-macro2 = { version = "=1.0.107", features = ["span-locations"] }
console = "=0.16.6"
clap = "=4.6.7"
clap_complete = "=4.6.11"
ignore = "=0.4.33"
prettyplease = "=0.2.37"
terminal_size = "=0.4.4"
