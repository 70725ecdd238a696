[package]
name = "byte_oracle"
version = "0.1.0"
edition = "2021"
publish = false

[dependencies]
llvmint = "*"
page_size = "*"
x86 = "*"
