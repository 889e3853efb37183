[package]
name = "pdf_verify"
version = "0.1.0"
edition = "2021"
publish = false

[dependencies]
crypto-bigint = "*"
hex = "*"
miniz_oxide = "*"
rsa = "*"
sha1 = "*"
sha2 = "*"
