[package]
name = "llvm-option-parser"
version = "0.1.0"
edition = "2021"
publish = false

[dependencies]
serde_json = "1"
thiserror = "1"
once_cell = "1"
object = "*"
plist = "*"
